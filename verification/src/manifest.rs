//! The project manifest (`dolphin.toml`): its validated form, and the
//! checks that turn the decoded tables into it.
//!
//! Decoding the TOML text into [`RawManifest`] is the caller's part; every
//! rule about the values (names, versions, targets, dependencies,
//! repositories) is checked here, and paths are resolved against the
//! manifest's directory.
use vstd::prelude::*;

use crate::names::{
    ascii_lowercase, coordinate_fault, coordinate_parts, is_dotted_name, is_dotted_name_text,
    is_identifier, is_identifier_text, is_semver, is_semver_text, is_valid_alias,
    is_valid_alias_spec, is_valid_repository_id, is_valid_repository_id_spec, repository_base,
    to_ascii_lowercase, trim_end, url_fault, CoordinateFault, UrlFault,
};
use crate::order::{sort_by_key, sorted_by_key, str_lt, text_lt, TextKeyed};
use crate::paths::{
    components, join, joined, parent_components, parent_path_components, path_components,
    same_components,
};
use crate::text::{chars_of, find_char, has_char, lemma_first_index, push_str, segments, str_eq};

verus! {

// ---------------------------------------------------------------------------
// The validated manifest.
// ---------------------------------------------------------------------------

/// `group:name:version`.
pub open spec fn coordinate_text(group: Seq<char>, name: Seq<char>, version: Seq<char>) -> Seq<char> {
    group + seq![':'] + name + seq![':'] + version
}

/// Builds `group:name:version`.
pub fn coordinate_string(group: &str, name: &str, version: &str) -> (r: String)
    ensures
        r@ == coordinate_text(group@, name@, version@),
{
    let mut r = String::new();
    push_str(&mut r, group);
    crate::text::push_char(&mut r, ':');
    push_str(&mut r, name);
    crate::text::push_char(&mut r, ':');
    push_str(&mut r, version);
    r
}

/// The package's full coordinate and its source directory.
#[derive(Debug, Clone, PartialEq, Eq)]
pub struct Package {
    pub group: String,
    pub name: String,
    pub version: String,
    pub source: String,
}

impl Package {
    /// `group:name:version`.
    pub fn coordinate(&self) -> (r: String)
        ensures
            r@ == coordinate_text(self.group@, self.name@, self.version@),
    {
        coordinate_string(self.group.as_str(), self.name.as_str(), self.version.as_str())
    }
}

/// An executable target: entry file and artifact name.
#[derive(Debug, Clone, PartialEq, Eq)]
pub struct BinTarget {
    pub name: String,
    pub path: String,
}

/// The library target: the root module's entry file.
#[derive(Debug, Clone, PartialEq, Eq)]
pub struct LibTarget {
    pub path: String,
}

/// Where a dependency comes from.
#[derive(Debug, Clone, PartialEq, Eq)]
pub enum DependencyKind {
    /// A remote `group:name:version` from a repository id.
    Coordinate { coordinate: String, repository: String },
    /// A local directory, resolved against the manifest's directory.
    Path(String),
}

impl DependencyKind {
    /// The coordinate of a remote dependency.
    pub fn coordinate(&self) -> (r: Option<&str>)
        ensures
            match self {
                DependencyKind::Coordinate { coordinate, .. } => r matches Some(c) && c@ == coordinate@,
                DependencyKind::Path(_) => r is None,
            },
    {
        match self {
            DependencyKind::Coordinate { coordinate, .. } => Some(coordinate.as_str()),
            DependencyKind::Path(_) => None,
        }
    }

    /// The repository id of a remote dependency.
    pub fn repository(&self) -> (r: Option<&str>)
        ensures
            match self {
                DependencyKind::Coordinate { repository, .. } => r matches Some(c) && c@ == repository@,
                DependencyKind::Path(_) => r is None,
            },
    {
        match self {
            DependencyKind::Coordinate { repository, .. } => Some(repository.as_str()),
            DependencyKind::Path(_) => None,
        }
    }
}

/// One `[dependencies]` entry: alias and source.
#[derive(Debug, Clone, PartialEq, Eq)]
pub struct Dependency {
    pub alias: String,
    pub kind: DependencyKind,
}

/// Build options.
#[derive(Debug, Clone, PartialEq, Eq)]
pub struct BuildConfig {
    pub optimization: String,
    pub output: String,
}

/// Native link inputs for one target triple, resolved against the
/// manifest's directory.
#[derive(Debug, Clone, PartialEq, Eq)]
pub struct NativeSpec {
    pub objects: Vec<String>,
    pub static_libs: Vec<String>,
    pub shared_libs: Vec<String>,
    pub runtime_files: Vec<String>,
}

/// A parsed and validated project manifest.
#[derive(Debug, Clone, PartialEq, Eq)]
pub struct Manifest {
    pub package: Package,
    /// The library target; a manifest declares it, a binary, or both.
    pub lib: Option<LibTarget>,
    pub bins: Vec<BinTarget>,
    pub build: BuildConfig,
    /// Native link inputs by target triple, in triple order.
    pub native: Vec<(String, NativeSpec)>,
    /// `[dependencies]`, in alias order.
    pub dependencies: Vec<Dependency>,
    /// `[repositories]`: lower-case id and base URL, in id order.
    pub repositories: Vec<(String, String)>,
    /// The manifest's directory (the project root).
    pub root: String,
    /// The manifest file.
    pub path: String,
}

impl Manifest {
    /// The native inputs declared for `triple`.
    pub fn native_for(&self, triple: &str) -> (r: Option<&NativeSpec>)
        ensures
            r is Some <==> exists|i: int| 0 <= i < self.native@.len() && self.native@[i].0@ == triple@,
            r matches Some(spec) ==> exists|i: int|
                0 <= i < self.native@.len() && self.native@[i].0@ == triple@ && *spec
                    == self.native@[i].1 && forall|j: int|
                    0 <= j < i ==> self.native@[j].0@ != triple@,
    {
        let mut i: usize = 0;
        while i < self.native.len()
            invariant
                i <= self.native.len(),
                forall|j: int| 0 <= j < i ==> self.native@[j].0@ != triple@,
            decreases self.native.len() - i,
        {
            if str_eq(self.native[i].0.as_str(), triple) {
                return Some(&self.native[i].1);
            }
            i = i + 1;
        }
        None
    }

    /// The package coordinate.
    pub fn coordinate(&self) -> (r: String)
        ensures
            r@ == coordinate_text(self.package.group@, self.package.name@, self.package.version@),
    {
        self.package.coordinate()
    }

    /// The base URL of repository `id` (ids are case-insensitive).
    pub fn repository_base(&self, id: &str) -> (r: Option<&str>)
        ensures
            r is Some <==> exists|i: int|
                0 <= i < self.repositories@.len() && self.repositories@[i].0@ == ascii_lowercase(id@),
            r matches Some(b) ==> exists|i: int|
                0 <= i < self.repositories@.len() && self.repositories@[i].0@ == ascii_lowercase(id@)
                    && b@ == self.repositories@[i].1@,
    {
        let lower = to_ascii_lowercase(id);
        let mut i: usize = 0;
        while i < self.repositories.len()
            invariant
                i <= self.repositories.len(),
                lower@ == ascii_lowercase(id@),
                forall|k: int| 0 <= k < i ==> self.repositories@[k].0@ != lower@,
            decreases self.repositories.len() - i,
        {
            if str_eq(self.repositories[i].0.as_str(), lower.as_str()) {
                return Some(self.repositories[i].1.as_str());
            }
            i = i + 1;
        }
        None
    }
}

// ---------------------------------------------------------------------------
// The decoded tables.
// ---------------------------------------------------------------------------

/// `[package]` as decoded.
#[derive(Debug, Clone)]
pub struct RawPackage {
    pub group: String,
    pub name: String,
    pub version: String,
    pub source: Option<String>,
}

/// One `[[bin]]` as decoded.
#[derive(Debug, Clone)]
pub struct RawBin {
    pub name: String,
    pub path: String,
}

/// `[build]` as decoded.
#[derive(Debug, Clone)]
pub struct RawBuild {
    pub optimization: Option<String>,
    pub output: Option<String>,
}

/// One `[native.<triple>]` table as decoded.
#[derive(Debug, Clone)]
pub struct RawNative {
    pub objects: Vec<String>,
    pub static_libs: Vec<String>,
    pub shared_libs: Vec<String>,
    pub runtime_files: Vec<String>,
}

/// The value of one `[dependencies]` entry as decoded.
#[derive(Debug, Clone)]
pub enum RawDependency {
    /// A string: the coordinate shorthand.
    Text(String),
    /// An inline table: each key, with its value when the value is a string.
    Table(Vec<(String, Option<String>)>),
    /// Any other value; the name of its TOML type.
    Other(String),
}

/// The decoded `dolphin.toml`. The keyed tables (`native`, `dependencies`,
/// `repositories`) list their entries in key order, as a sorted map gives
/// them.
#[derive(Debug, Clone)]
pub struct RawManifest {
    pub package: Option<RawPackage>,
    pub lib: Option<String>,
    pub bins: Vec<RawBin>,
    pub build: Option<RawBuild>,
    pub native: Vec<(String, RawNative)>,
    pub dependencies: Vec<(String, RawDependency)>,
    pub repositories: Vec<(String, String)>,
}

// ---------------------------------------------------------------------------
// Errors.
// ---------------------------------------------------------------------------

/// What is wrong with a manifest.
#[derive(Debug, Clone, PartialEq, Eq)]
pub enum ManifestError {
    MissingPackage,
    EmptyGroup,
    InvalidGroup { group: String },
    InvalidName { name: String },
    VersionWithColon { version: String },
    InvalidVersion { version: String },
    NoTargets,
    LibOutsideSource { lib: String, source: String },
    DuplicateBin { name: String },
    InvalidOptimization { value: String },
    EmptyNativeTriple,
    InvalidAlias { alias: String },
    InvalidCoordinate { coordinate: String, fault: CoordinateFault },
    UnknownDependencyKey { alias: String, key: String },
    CoordinateAndPath { alias: String },
    PathWithRepository { alias: String },
    NoCoordinateOrPath { alias: String },
    DependencyType { alias: String, found: String },
    InvalidRepositoryId { id: String },
    InvalidRepositoryUrl { url: String, fault: UrlFault },
    DuplicateRepository { id: String },
}

/// [`ManifestError`] with its texts as character sequences.
pub enum ManifestProblem {
    MissingPackage,
    EmptyGroup,
    InvalidGroup { group: Seq<char> },
    InvalidName { name: Seq<char> },
    VersionWithColon { version: Seq<char> },
    InvalidVersion { version: Seq<char> },
    NoTargets,
    LibOutsideSource { lib: Seq<char>, source: Seq<char> },
    DuplicateBin { name: Seq<char> },
    InvalidOptimization { value: Seq<char> },
    EmptyNativeTriple,
    InvalidAlias { alias: Seq<char> },
    InvalidCoordinate { coordinate: Seq<char>, fault: CoordinateFault },
    UnknownDependencyKey { alias: Seq<char>, key: Seq<char> },
    CoordinateAndPath { alias: Seq<char> },
    PathWithRepository { alias: Seq<char> },
    NoCoordinateOrPath { alias: Seq<char> },
    DependencyType { alias: Seq<char>, found: Seq<char> },
    InvalidRepositoryId { id: Seq<char> },
    InvalidRepositoryUrl { url: Seq<char>, fault: UrlFault },
    DuplicateRepository { id: Seq<char> },
}

impl View for ManifestError {
    type V = ManifestProblem;

    open spec fn view(&self) -> ManifestProblem {
        match self {
            ManifestError::MissingPackage => ManifestProblem::MissingPackage,
            ManifestError::EmptyGroup => ManifestProblem::EmptyGroup,
            ManifestError::InvalidGroup { group } => ManifestProblem::InvalidGroup { group: group@ },
            ManifestError::InvalidName { name } => ManifestProblem::InvalidName { name: name@ },
            ManifestError::VersionWithColon { version } => ManifestProblem::VersionWithColon {
                version: version@,
            },
            ManifestError::InvalidVersion { version } => ManifestProblem::InvalidVersion {
                version: version@,
            },
            ManifestError::NoTargets => ManifestProblem::NoTargets,
            ManifestError::LibOutsideSource { lib, source } => ManifestProblem::LibOutsideSource {
                lib: lib@,
                source: source@,
            },
            ManifestError::DuplicateBin { name } => ManifestProblem::DuplicateBin { name: name@ },
            ManifestError::InvalidOptimization { value } => ManifestProblem::InvalidOptimization {
                value: value@,
            },
            ManifestError::EmptyNativeTriple => ManifestProblem::EmptyNativeTriple,
            ManifestError::InvalidAlias { alias } => ManifestProblem::InvalidAlias { alias: alias@ },
            ManifestError::InvalidCoordinate { coordinate, fault } =>
                ManifestProblem::InvalidCoordinate { coordinate: coordinate@, fault: *fault },
            ManifestError::UnknownDependencyKey { alias, key } =>
                ManifestProblem::UnknownDependencyKey { alias: alias@, key: key@ },
            ManifestError::CoordinateAndPath { alias } => ManifestProblem::CoordinateAndPath {
                alias: alias@,
            },
            ManifestError::PathWithRepository { alias } => ManifestProblem::PathWithRepository {
                alias: alias@,
            },
            ManifestError::NoCoordinateOrPath { alias } => ManifestProblem::NoCoordinateOrPath {
                alias: alias@,
            },
            ManifestError::DependencyType { alias, found } => ManifestProblem::DependencyType {
                alias: alias@,
                found: found@,
            },
            ManifestError::InvalidRepositoryId { id } => ManifestProblem::InvalidRepositoryId {
                id: id@,
            },
            ManifestError::InvalidRepositoryUrl { url, fault } =>
                ManifestProblem::InvalidRepositoryUrl { url: url@, fault: *fault },
            ManifestError::DuplicateRepository { id } => ManifestProblem::DuplicateRepository {
                id: id@,
            },
        }
    }
}

/// How an invalid coordinate is reported.
pub open spec fn coordinate_fault_text(coordinate: Seq<char>, fault: CoordinateFault) -> Seq<char> {
    "invalid coordinate `"@ + coordinate + match fault {
        CoordinateFault::Shape => "`: expected `group:name:version`"@,
        CoordinateFault::Group => "`: expected dot-separated identifiers in the group"@,
        CoordinateFault::Name => "`: expected a non-empty identifier as the package name"@,
        CoordinateFault::Version => "`: expected an exact semantic version without build metadata"@,
    }
}

/// Where the scheme of `s` ends, searching from `i`: at the first `://`,
/// or two characters before the end.
pub open spec fn scheme_end(s: Seq<char>, i: int) -> int
    decreases s.len() - i,
{
    if 0 <= i < s.len() && s.len() - i > 2 && !(s[i] == ':' && s[i + 1] == '/' && s[i + 2] == '/') {
        scheme_end(s, i + 1)
    } else {
        i
    }
}

/// How an invalid repository URL is reported.
pub open spec fn url_fault_text(url: Seq<char>, fault: UrlFault) -> Seq<char> {
    match fault {
        UrlFault::Empty => "repository URL must not be empty"@,
        _ => "invalid repository URL `"@ + url + match fault {
            UrlFault::NoScheme => "`: expected an `http://`, `https://`, or `file://` base"@,
            UrlFault::UnsupportedScheme => "`: unsupported scheme `"@ + url.take(scheme_end(url, 0))
                + "`"@,
            UrlFault::MissingHost => "`: missing host or path"@,
            UrlFault::QueryOrFragment => "`: must not contain a query or fragment"@,
            UrlFault::Credentials => "`: must not embed credentials"@,
            UrlFault::Empty => Seq::empty(),
        },
    }
}

fn coordinate_message(out: &mut String, coordinate: &str, fault: CoordinateFault)
    ensures
        final(out)@ == old(out)@ + coordinate_fault_text(coordinate@, fault),
{
    let ghost start = out@;
    push_str(out, "invalid coordinate `");
    push_str(out, coordinate);
    match fault {
        CoordinateFault::Shape => push_str(out, "`: expected `group:name:version`"),
        CoordinateFault::Group => push_str(
            out,
            "`: expected dot-separated identifiers in the group",
        ),
        CoordinateFault::Name => push_str(
            out,
            "`: expected a non-empty identifier as the package name",
        ),
        CoordinateFault::Version => push_str(
            out,
            "`: expected an exact semantic version without build metadata",
        ),
    }
    assert(out@ =~= start + coordinate_fault_text(coordinate@, fault));
}

fn url_message(out: &mut String, url: &str, fault: UrlFault)
    ensures
        final(out)@ == old(out)@ + url_fault_text(url@, fault),
{
    let ghost start = out@;
    match fault {
        UrlFault::Empty => {
            push_str(out, "repository URL must not be empty");
            return ;
        },
        _ => {},
    }
    push_str(out, "invalid repository URL `");
    push_str(out, url);
    match fault {
        UrlFault::NoScheme => push_str(
            out,
            "`: expected an `http://`, `https://`, or `file://` base",
        ),
        UrlFault::UnsupportedScheme => {
            push_str(out, "`: unsupported scheme `");
            let ghost before = out@;
            let chars = chars_of(url);
            let mut i: usize = 0;
            while i < chars.len() && chars.len() - i > 2 && !(chars[i] == ':' && chars[i + 1] == '/' && chars[i + 2]
                == '/')
                invariant
                    chars@ == url@,
                    i <= chars.len(),
                    out@ == before + url@.take(i as int),
                    scheme_end(url@, 0) == scheme_end(url@, i as int),
                decreases chars.len() - i,
            {
                crate::text::push_char(out, chars[i]);
                assert(url@.take(i + 1) =~= url@.take(i as int).push(chars@[i as int]));
                i = i + 1;
            }
            push_str(out, "`");
            assert(out@ =~= start + url_fault_text(url@, fault));
        },
        UrlFault::MissingHost => push_str(out, "`: missing host or path"),
        UrlFault::QueryOrFragment => push_str(out, "`: must not contain a query or fragment"),
        UrlFault::Credentials => push_str(out, "`: must not embed credentials"),
        UrlFault::Empty => {},
    }
}

/// How a manifest error reads; `manifest` is the manifest file's path.
pub open spec fn manifest_error_text(e: ManifestProblem, manifest: Seq<char>) -> Seq<char> {
    match e {
        ManifestProblem::MissingPackage => "`"@ + manifest + "` is missing a `[package]` table"@,
        ManifestProblem::EmptyGroup => "`package.group` must not be empty"@,
        ManifestProblem::InvalidGroup { group } => "invalid `package.group` `"@ + group
            + "`: expected dot-separated identifiers"@,
        ManifestProblem::InvalidName { name } => "invalid name `"@ + name
            + "`: expected a non-empty identifier"@,
        ManifestProblem::VersionWithColon { version } => "invalid `package.version` `"@ + version
            + "`: must not contain `:`"@,
        ManifestProblem::InvalidVersion { version } => "invalid `package.version` `"@ + version
            + "`: expected semantic version like `0.1.0`"@,
        ManifestProblem::NoTargets => "`"@ + manifest
            + "` must declare a `[lib]` target or at least one `[[bin]]` target"@,
        ManifestProblem::LibOutsideSource { lib, source } => "`"@ + manifest + ".lib.path` `"@ + lib
            + "` must be a direct child of the source directory `"@ + source + "`"@,
        ManifestProblem::DuplicateBin { name } => "duplicate binary target `"@ + name + "` in `"@
            + manifest + "`"@,
        ManifestProblem::InvalidOptimization { value } => "invalid `build.optimization` `"@ + value
            + "`: expected `debug` or `release`"@,
        ManifestProblem::EmptyNativeTriple => "`"@ + manifest
            + "` has a `[native]` entry with an empty target triple"@,
        ManifestProblem::InvalidAlias { alias } => "invalid dependency alias `"@ + alias + "` in `"@
            + manifest + "`: expected an identifier other than `std`"@,
        ManifestProblem::InvalidCoordinate { coordinate, fault } => coordinate_fault_text(
            coordinate,
            fault,
        ),
        ManifestProblem::UnknownDependencyKey { alias, key } => "unknown key `"@ + key
            + "` in dependency `"@ + alias + "` of `"@ + manifest + "`"@,
        ManifestProblem::CoordinateAndPath { alias } => "dependency `"@ + alias + "` in `"@ + manifest
            + "` cannot set both `coordinate` and `path`"@,
        ManifestProblem::PathWithRepository { alias } => "path dependency `"@ + alias + "` in `"@
            + manifest + "` cannot set `repository`"@,
        ManifestProblem::NoCoordinateOrPath { alias } => "dependency `"@ + alias + "` in `"@
            + manifest + "` must set `coordinate` or `path`"@,
        ManifestProblem::DependencyType { alias, found } => "dependency `"@ + alias + "` in `"@
            + manifest + "` must be a coordinate string or a table, found "@ + found,
        ManifestProblem::InvalidRepositoryId { id } => "invalid repository id `"@ + id + "` in `"@
            + manifest
            + "`: expected ASCII letters, digits, or underscores starting with a letter"@,
        ManifestProblem::InvalidRepositoryUrl { url, fault } => url_fault_text(url, fault),
        ManifestProblem::DuplicateRepository { id } => "duplicate repository id `"@ + id + "` in `"@
            + manifest + "` (ids are case-insensitive)"@,
    }
}

impl ManifestError {
    /// The diagnostic text; `manifest` is the manifest file's path.
    pub fn message(&self, manifest: &str) -> (r: String)
        ensures
            r@ == manifest_error_text(self@, manifest@),
    {
        let mut m = String::new();
        match self {
            ManifestError::MissingPackage => {
                push_str(&mut m, "`");
                push_str(&mut m, manifest);
                push_str(&mut m, "` is missing a `[package]` table");
            },
            ManifestError::EmptyGroup => push_str(&mut m, "`package.group` must not be empty"),
            ManifestError::InvalidGroup { group } => {
                push_str(&mut m, "invalid `package.group` `");
                push_str(&mut m, group.as_str());
                push_str(&mut m, "`: expected dot-separated identifiers");
            },
            ManifestError::InvalidName { name } => {
                push_str(&mut m, "invalid name `");
                push_str(&mut m, name.as_str());
                push_str(&mut m, "`: expected a non-empty identifier");
            },
            ManifestError::VersionWithColon { version } => {
                push_str(&mut m, "invalid `package.version` `");
                push_str(&mut m, version.as_str());
                push_str(&mut m, "`: must not contain `:`");
            },
            ManifestError::InvalidVersion { version } => {
                push_str(&mut m, "invalid `package.version` `");
                push_str(&mut m, version.as_str());
                push_str(&mut m, "`: expected semantic version like `0.1.0`");
            },
            ManifestError::NoTargets => {
                push_str(&mut m, "`");
                push_str(&mut m, manifest);
                push_str(
                    &mut m,
                    "` must declare a `[lib]` target or at least one `[[bin]]` target",
                );
            },
            ManifestError::LibOutsideSource { lib, source } => {
                push_str(&mut m, "`");
                push_str(&mut m, manifest);
                push_str(&mut m, ".lib.path` `");
                push_str(&mut m, lib.as_str());
                push_str(&mut m, "` must be a direct child of the source directory `");
                push_str(&mut m, source.as_str());
                push_str(&mut m, "`");
            },
            ManifestError::DuplicateBin { name } => {
                push_str(&mut m, "duplicate binary target `");
                push_str(&mut m, name.as_str());
                push_str(&mut m, "` in `");
                push_str(&mut m, manifest);
                push_str(&mut m, "`");
            },
            ManifestError::InvalidOptimization { value } => {
                push_str(&mut m, "invalid `build.optimization` `");
                push_str(&mut m, value.as_str());
                push_str(&mut m, "`: expected `debug` or `release`");
            },
            ManifestError::EmptyNativeTriple => {
                push_str(&mut m, "`");
                push_str(&mut m, manifest);
                push_str(&mut m, "` has a `[native]` entry with an empty target triple");
            },
            ManifestError::InvalidAlias { alias } => {
                push_str(&mut m, "invalid dependency alias `");
                push_str(&mut m, alias.as_str());
                push_str(&mut m, "` in `");
                push_str(&mut m, manifest);
                push_str(&mut m, "`: expected an identifier other than `std`");
            },
            ManifestError::InvalidCoordinate { coordinate, fault } => {
                coordinate_message(&mut m, coordinate.as_str(), *fault);
            },
            ManifestError::UnknownDependencyKey { alias, key } => {
                push_str(&mut m, "unknown key `");
                push_str(&mut m, key.as_str());
                push_str(&mut m, "` in dependency `");
                push_str(&mut m, alias.as_str());
                push_str(&mut m, "` of `");
                push_str(&mut m, manifest);
                push_str(&mut m, "`");
            },
            ManifestError::CoordinateAndPath { alias } => {
                push_str(&mut m, "dependency `");
                push_str(&mut m, alias.as_str());
                push_str(&mut m, "` in `");
                push_str(&mut m, manifest);
                push_str(&mut m, "` cannot set both `coordinate` and `path`");
            },
            ManifestError::PathWithRepository { alias } => {
                push_str(&mut m, "path dependency `");
                push_str(&mut m, alias.as_str());
                push_str(&mut m, "` in `");
                push_str(&mut m, manifest);
                push_str(&mut m, "` cannot set `repository`");
            },
            ManifestError::NoCoordinateOrPath { alias } => {
                push_str(&mut m, "dependency `");
                push_str(&mut m, alias.as_str());
                push_str(&mut m, "` in `");
                push_str(&mut m, manifest);
                push_str(&mut m, "` must set `coordinate` or `path`");
            },
            ManifestError::DependencyType { alias, found } => {
                push_str(&mut m, "dependency `");
                push_str(&mut m, alias.as_str());
                push_str(&mut m, "` in `");
                push_str(&mut m, manifest);
                push_str(&mut m, "` must be a coordinate string or a table, found ");
                push_str(&mut m, found.as_str());
            },
            ManifestError::InvalidRepositoryId { id } => {
                push_str(&mut m, "invalid repository id `");
                push_str(&mut m, id.as_str());
                push_str(&mut m, "` in `");
                push_str(&mut m, manifest);
                push_str(
                    &mut m,
                    "`: expected ASCII letters, digits, or underscores starting with a letter",
                );
            },
            ManifestError::InvalidRepositoryUrl { url, fault } => {
                url_message(&mut m, url.as_str(), *fault);
            },
            ManifestError::DuplicateRepository { id } => {
                push_str(&mut m, "duplicate repository id `");
                push_str(&mut m, id.as_str());
                push_str(&mut m, "` in `");
                push_str(&mut m, manifest);
                push_str(&mut m, "` (ids are case-insensitive)");
            },
        }
        m
    }
}


// ---------------------------------------------------------------------------
// Rules.
// ---------------------------------------------------------------------------

pub open spec fn text_src() -> Seq<char> {
    seq!['s', 'r', 'c']
}

pub open spec fn text_target() -> Seq<char> {
    seq!['t', 'a', 'r', 'g', 'e', 't']
}

pub open spec fn text_debug() -> Seq<char> {
    seq!['d', 'e', 'b', 'u', 'g']
}

pub open spec fn text_release() -> Seq<char> {
    seq!['r', 'e', 'l', 'e', 'a', 's', 'e']
}

pub open spec fn text_default() -> Seq<char> {
    seq!['d', 'e', 'f', 'a', 'u', 'l', 't']
}

pub open spec fn text_coordinate() -> Seq<char> {
    seq!['c', 'o', 'o', 'r', 'd', 'i', 'n', 'a', 't', 'e']
}

pub open spec fn text_path() -> Seq<char> {
    seq!['p', 'a', 't', 'h']
}

pub open spec fn text_repository() -> Seq<char> {
    seq!['r', 'e', 'p', 'o', 's', 'i', 't', 'o', 'r', 'y']
}

/// The first rule that `[package]` breaks.
pub open spec fn package_problem(p: RawPackage) -> Option<ManifestProblem> {
    if p.group@.len() == 0 {
        Some(ManifestProblem::EmptyGroup)
    } else if !is_dotted_name(p.group@) {
        Some(ManifestProblem::InvalidGroup { group: p.group@ })
    } else if !is_identifier(p.name@) {
        Some(ManifestProblem::InvalidName { name: p.name@ })
    } else if has_char(p.version@, ':') {
        Some(ManifestProblem::VersionWithColon { version: p.version@ })
    } else if !is_semver(p.version@) {
        Some(ManifestProblem::InvalidVersion { version: p.version@ })
    } else {
        None
    }
}

/// The source directory: `[package].source` (default `src`) under `root`.
pub open spec fn source_dir(root: Seq<char>, p: RawPackage) -> Seq<char> {
    joined(
        root,
        match p.source {
            Some(s) => s@,
            None => text_src(),
        },
    )
}

/// What is wrong with binary `i`: its name, or a name an earlier binary has.
pub open spec fn bin_problem(bins: Seq<RawBin>, i: int) -> Option<ManifestProblem> {
    if !is_identifier(bins[i].name@) {
        Some(ManifestProblem::InvalidName { name: bins[i].name@ })
    } else if exists|j: int| 0 <= j < i && bins[j].name@ == bins[i].name@ {
        Some(ManifestProblem::DuplicateBin { name: bins[i].name@ })
    } else {
        None
    }
}

/// `build.optimization`, `debug` when absent.
pub open spec fn optimization_of(build: Option<RawBuild>) -> Seq<char> {
    match build {
        Some(b) => match b.optimization {
            Some(o) => o@,
            None => text_debug(),
        },
        None => text_debug(),
    }
}

/// `build.output`, `target` when absent.
pub open spec fn output_of(build: Option<RawBuild>) -> Seq<char> {
    match build {
        Some(b) => match b.output {
            Some(o) => o@,
            None => text_target(),
        },
        None => text_target(),
    }
}

/// The first problem among binaries `0..n`.
pub open spec fn first_bin_problem(bins: Seq<RawBin>, n: int) -> Option<ManifestProblem>
    decreases n,
{
    if n <= 0 {
        None
    } else if first_bin_problem(bins, n - 1) is Some {
        first_bin_problem(bins, n - 1)
    } else {
        bin_problem(bins, n - 1)
    }
}

/// Some native table among `native` has an empty target triple.
pub open spec fn has_empty_triple(native: Seq<(String, RawNative)>) -> bool {
    exists|i: int| 0 <= i < native.len() && (#[trigger] native[i]).0@.len() == 0
}

/// The string value of `key` in an inline table; none when the key is
/// absent or its value is not a string.
pub open spec fn table_text(entries: Seq<(String, Option<String>)>, key: Seq<char>) -> Option<
    Seq<char>,
>
    decreases entries.len(),
{
    if entries.len() == 0 {
        None
    } else if entries[0].0@ == key {
        match entries[0].1 {
            Some(s) => Some(s@),
            None => None,
        }
    } else {
        table_text(entries.drop_first(), key)
    }
}

pub open spec fn is_dependency_key(k: Seq<char>) -> bool {
    k == text_coordinate() || k == text_repository() || k == text_path()
}

/// The first key of an inline table other than `coordinate`, `repository`
/// and `path`.
pub open spec fn unknown_key(entries: Seq<(String, Option<String>)>) -> Option<Seq<char>>
    decreases entries.len(),
{
    if entries.len() == 0 {
        None
    } else if !is_dependency_key(entries[0].0@) {
        Some(entries[0].0@)
    } else {
        unknown_key(entries.drop_first())
    }
}

pub open spec fn coordinate_problem(c: Seq<char>) -> Option<ManifestProblem> {
    match coordinate_fault(c) {
        Some(f) => Some(ManifestProblem::InvalidCoordinate { coordinate: c, fault: f }),
        None => None,
    }
}

/// The first rule that the dependency `alias = value` breaks.
pub open spec fn dependency_problem(alias: Seq<char>, value: RawDependency) -> Option<
    ManifestProblem,
> {
    if !is_valid_alias_spec(alias) {
        Some(ManifestProblem::InvalidAlias { alias })
    } else {
        match value {
            RawDependency::Text(c) => coordinate_problem(c@),
            RawDependency::Table(entries) => {
                let coordinate = table_text(entries@, text_coordinate());
                let path = table_text(entries@, text_path());
                let repository = table_text(entries@, text_repository());
                if unknown_key(entries@) is Some {
                    Some(
                        ManifestProblem::UnknownDependencyKey {
                            alias,
                            key: unknown_key(entries@)->0,
                        },
                    )
                } else if coordinate is Some && path is Some {
                    Some(ManifestProblem::CoordinateAndPath { alias })
                } else if coordinate is Some {
                    coordinate_problem(coordinate->0)
                } else if path is Some {
                    if repository is Some {
                        Some(ManifestProblem::PathWithRepository { alias })
                    } else {
                        None
                    }
                } else {
                    Some(ManifestProblem::NoCoordinateOrPath { alias })
                }
            },
            RawDependency::Other(t) => Some(ManifestProblem::DependencyType { alias, found: t@ }),
        }
    }
}

/// The first problem among dependencies `0..n`.
pub open spec fn first_dependency_problem(deps: Seq<(String, RawDependency)>, n: int) -> Option<
    ManifestProblem,
>
    decreases n,
{
    if n <= 0 {
        None
    } else if first_dependency_problem(deps, n - 1) is Some {
        first_dependency_problem(deps, n - 1)
    } else {
        dependency_problem(deps[n - 1].0@, deps[n - 1].1)
    }
}

/// The first rule that repository `i` breaks: its id, its URL, or an id
/// that an earlier one has once both are lower-cased.
pub open spec fn repository_problem(repos: Seq<(String, String)>, i: int) -> Option<ManifestProblem> {
    if !is_valid_repository_id_spec(repos[i].0@) {
        Some(ManifestProblem::InvalidRepositoryId { id: repos[i].0@ })
    } else if url_fault(repos[i].1@) is Some {
        Some(
            ManifestProblem::InvalidRepositoryUrl {
                url: repos[i].1@,
                fault: url_fault(repos[i].1@)->0,
            },
        )
    } else if exists|j: int|
        0 <= j < i && ascii_lowercase(repos[j].0@) == ascii_lowercase(repos[i].0@) {
        Some(ManifestProblem::DuplicateRepository { id: ascii_lowercase(repos[i].0@) })
    } else {
        None
    }
}

/// The first problem among repositories `0..n`.
pub open spec fn first_repository_problem(repos: Seq<(String, String)>, n: int) -> Option<
    ManifestProblem,
>
    decreases n,
{
    if n <= 0 {
        None
    } else if first_repository_problem(repos, n - 1) is Some {
        first_repository_problem(repos, n - 1)
    } else {
        repository_problem(repos, n - 1)
    }
}

/// The first rule a decoded manifest breaks, in the order the checks run;
/// none when it is valid.
pub open spec fn manifest_problem(root: Seq<char>, raw: RawManifest) -> Option<ManifestProblem> {
    match raw.package {
        None => Some(ManifestProblem::MissingPackage),
        Some(p) => {
            if package_problem(p) is Some {
                package_problem(p)
            } else if raw.lib is None && raw.bins@.len() == 0 {
                Some(ManifestProblem::NoTargets)
            } else if raw.lib is Some && parent_components(joined(root, raw.lib->0@)) != components(
                source_dir(root, p),
            ) {
                Some(
                    ManifestProblem::LibOutsideSource {
                        lib: joined(root, raw.lib->0@),
                        source: source_dir(root, p),
                    },
                )
            } else if first_bin_problem(raw.bins@, raw.bins@.len() as int) is Some {
                first_bin_problem(raw.bins@, raw.bins@.len() as int)
            } else if optimization_of(raw.build) != text_debug() && optimization_of(raw.build)
                != text_release() {
                Some(ManifestProblem::InvalidOptimization { value: optimization_of(raw.build) })
            } else if has_empty_triple(raw.native@) {
                Some(ManifestProblem::EmptyNativeTriple)
            } else if first_dependency_problem(raw.dependencies@, raw.dependencies@.len() as int)
                is Some {
                first_dependency_problem(raw.dependencies@, raw.dependencies@.len() as int)
            } else {
                first_repository_problem(raw.repositories@, raw.repositories@.len() as int)
            }
        },
    }
}

// ---------------------------------------------------------------------------
// The shape of a valid manifest.
// ---------------------------------------------------------------------------

/// Each path of `out` is the path of `raw` at the same place, under `root`.
pub open spec fn paths_under(root: Seq<char>, raw: Seq<String>, out: Seq<String>) -> bool {
    out.len() == raw.len() && forall|i: int| 0 <= i < out.len() ==> #[trigger] out[i]@ == joined(root, raw[i]@)
}

pub open spec fn native_under(root: Seq<char>, raw: RawNative, spec: NativeSpec) -> bool {
    &&& paths_under(root, raw.objects@, spec.objects@)
    &&& paths_under(root, raw.static_libs@, spec.static_libs@)
    &&& paths_under(root, raw.shared_libs@, spec.shared_libs@)
    &&& paths_under(root, raw.runtime_files@, spec.runtime_files@)
}

/// The source a valid dependency entry gives.
pub open spec fn dependency_kind_of(root: Seq<char>, raw: RawDependency, kind: DependencyKind) -> bool {
    match raw {
        RawDependency::Text(c) => kind matches DependencyKind::Coordinate { coordinate, repository }
            && coordinate@ == c@ && repository@ == text_default(),
        RawDependency::Table(entries) => match table_text(entries@, text_coordinate()) {
            Some(c) => kind matches DependencyKind::Coordinate { coordinate, repository }
                && coordinate@ == c && repository@ == match table_text(
                entries@,
                text_repository(),
            ) {
                Some(r) => r,
                None => text_default(),
            },
            None => kind matches DependencyKind::Path(p) && p@ == joined(
                root,
                table_text(entries@, text_path())->0,
            ),
        },
        RawDependency::Other(_) => false,
    }
}

/// A repository entry as kept: lower-case id, URL without trailing `/`.
pub open spec fn repository_entry(raw: (String, String)) -> (Seq<char>, Seq<char>) {
    (ascii_lowercase(raw.0@), trim_end(raw.1@, '/'))
}

/// `e` is the kept form of some entry of `raw`.
pub open spec fn kept_from(raw: Seq<(String, String)>, e: (String, String)) -> bool {
    exists|j: int| 0 <= j < raw.len() && (e.0@, e.1@) == repository_entry(raw[j])
}

/// The kept form of `r` is in `out`.
pub open spec fn kept_in(out: Seq<(String, String)>, r: (String, String)) -> bool {
    exists|i: int| 0 <= i < out.len() && (out[i].0@, out[i].1@) == repository_entry(r)
}

/// `out` holds the entries of `raw`, each as kept, sorted by id.
pub open spec fn repositories_from(raw: Seq<(String, String)>, out: Seq<(String, String)>) -> bool {
    &&& out.len() == raw.len()
    &&& sorted_by_key(out)
    &&& forall|i: int| 0 <= i < out.len() ==> kept_from(raw, #[trigger] out[i])
    &&& forall|j: int| 0 <= j < raw.len() ==> kept_in(out, #[trigger] raw[j])
}

/// The manifest that a valid decoded manifest gives.
pub open spec fn manifest_from(path: Seq<char>, root: Seq<char>, raw: RawManifest, m: Manifest) -> bool {
    let p = raw.package->0;
    &&& m.package.group@ == p.group@
    &&& m.package.name@ == p.name@
    &&& m.package.version@ == p.version@
    &&& m.package.source@ == source_dir(root, p)
    &&& match raw.lib {
        Some(l) => m.lib matches Some(t) && t.path@ == joined(root, l@),
        None => m.lib is None,
    }
    &&& m.bins@.len() == raw.bins@.len()
    &&& forall|i: int|
        0 <= i < m.bins@.len() ==> (#[trigger] m.bins@[i]).name@ == raw.bins@[i].name@
            && m.bins@[i].path@ == joined(root, raw.bins@[i].path@)
    &&& m.build.optimization@ == optimization_of(raw.build)
    &&& m.build.output@ == joined(root, output_of(raw.build))
    &&& m.native@.len() == raw.native@.len()
    &&& forall|i: int|
        0 <= i < m.native@.len() ==> (#[trigger] m.native@[i]).0@ == raw.native@[i].0@
            && native_under(root, raw.native@[i].1, m.native@[i].1)
    &&& m.dependencies@.len() == raw.dependencies@.len()
    &&& forall|i: int|
        0 <= i < m.dependencies@.len() ==> (#[trigger] m.dependencies@[i]).alias@
            == raw.dependencies@[i].0@ && dependency_kind_of(
            root,
            raw.dependencies@[i].1,
            m.dependencies@[i].kind,
        )
    &&& repositories_from(raw.repositories@, m.repositories@)
    &&& m.root@ == root
    &&& m.path@ == path
}


// ---------------------------------------------------------------------------
// Checking and building.
// ---------------------------------------------------------------------------

fn owned(s: &str) -> (r: String)
    ensures
        r@ == s@,
{
    s.to_owned()
}

fn check_package(p: &RawPackage) -> (r: Result<(), ManifestError>)
    ensures
        r is Ok <==> package_problem(*p) is None,
        r matches Err(e) ==> package_problem(*p) == Some(e@),
{
    if p.group.as_str().unicode_len() == 0 {
        return Err(ManifestError::EmptyGroup);
    }
    if !is_dotted_name_text(p.group.as_str()) {
        return Err(ManifestError::InvalidGroup { group: p.group.clone() });
    }
    if !is_identifier_text(p.name.as_str()) {
        return Err(ManifestError::InvalidName { name: p.name.clone() });
    }
    let version = chars_of(p.version.as_str());
    proof {
        lemma_first_index(version@, ':');
    }
    if find_char(&version, ':').is_some() {
        return Err(ManifestError::VersionWithColon { version: p.version.clone() });
    }
    if !is_semver_text(p.version.as_str()) {
        return Err(ManifestError::InvalidVersion { version: p.version.clone() });
    }
    Ok(())
}

proof fn lemma_first_bin_stable(bins: Seq<RawBin>, m: int, n: int)
    requires
        0 <= m <= n,
        first_bin_problem(bins, m) is Some,
    ensures
        first_bin_problem(bins, n) == first_bin_problem(bins, m),
    decreases n - m,
{
    if m < n {
        lemma_first_bin_stable(bins, m, n - 1);
    }
}

proof fn lemma_first_dependency_stable(deps: Seq<(String, RawDependency)>, m: int, n: int)
    requires
        0 <= m <= n,
        first_dependency_problem(deps, m) is Some,
    ensures
        first_dependency_problem(deps, n) == first_dependency_problem(deps, m),
    decreases n - m,
{
    if m < n {
        lemma_first_dependency_stable(deps, m, n - 1);
    }
}

proof fn lemma_first_repository_stable(repos: Seq<(String, String)>, m: int, n: int)
    requires
        0 <= m <= n,
        first_repository_problem(repos, m) is Some,
    ensures
        first_repository_problem(repos, n) == first_repository_problem(repos, m),
    decreases n - m,
{
    if m < n {
        lemma_first_repository_stable(repos, m, n - 1);
    }
}

fn check_bins(bins: &Vec<RawBin>) -> (r: Result<(), ManifestError>)
    ensures
        r is Ok <==> first_bin_problem(bins@, bins@.len() as int) is None,
        r matches Err(e) ==> first_bin_problem(bins@, bins@.len() as int) == Some(e@),
{
    let mut i: usize = 0;
    while i < bins.len()
        invariant
            i <= bins.len(),
            first_bin_problem(bins@, i as int) is None,
        decreases bins.len() - i,
    {
        if !is_identifier_text(bins[i].name.as_str()) {
            proof {
                assert(first_bin_problem(bins@, i + 1) == bin_problem(bins@, i as int));
                lemma_first_bin_stable(bins@, i + 1, bins@.len() as int);
            }
            return Err(ManifestError::InvalidName { name: bins[i].name.clone() });
        }
        let mut j: usize = 0;
        while j < i
            invariant
                j <= i < bins.len(),
                first_bin_problem(bins@, i as int) is None,
                is_identifier(bins@[i as int].name@),
                forall|k: int| 0 <= k < j ==> bins@[k].name@ != bins@[i as int].name@,
            decreases i - j,
        {
            if str_eq(bins[j].name.as_str(), bins[i].name.as_str()) {
                proof {
                    assert(bins@[j as int].name@ == bins@[i as int].name@);
                    assert(is_identifier(bins@[i as int].name@));
                    assert(first_bin_problem(bins@, i + 1) == bin_problem(bins@, i as int));
                    lemma_first_bin_stable(bins@, i + 1, bins@.len() as int);
                }
                return Err(ManifestError::DuplicateBin { name: bins[i].name.clone() });
            }
            j = j + 1;
        }
        i = i + 1;
    }
    Ok(())
}

fn paths_joined(root: &str, list: &Vec<String>) -> (r: Vec<String>)
    ensures
        paths_under(root@, list@, r@),
{
    let mut out: Vec<String> = Vec::new();
    let mut i: usize = 0;
    while i < list.len()
        invariant
            i <= list.len(),
            out@.len() == i,
            forall|k: int| 0 <= k < i ==> #[trigger] out@[k]@ == joined(root@, list@[k]@),
        decreases list.len() - i,
    {
        out.push(join(root, list[i].as_str()));
        i = i + 1;
    }
    out
}

fn build_bins(root: &str, bins: &Vec<RawBin>) -> (r: Vec<BinTarget>)
    ensures
        r@.len() == bins@.len(),
        forall|i: int|
            0 <= i < r@.len() ==> (#[trigger] r@[i]).name@ == bins@[i].name@ && r@[i].path@ == joined(
                root@,
                bins@[i].path@,
            ),
{
    let mut out: Vec<BinTarget> = Vec::new();
    let mut i: usize = 0;
    while i < bins.len()
        invariant
            i <= bins.len(),
            out@.len() == i,
            forall|k: int|
                0 <= k < i ==> (#[trigger] out@[k]).name@ == bins@[k].name@ && out@[k].path@
                    == joined(root@, bins@[k].path@),
        decreases bins.len() - i,
    {
        out.push(BinTarget { name: bins[i].name.clone(), path: join(root, bins[i].path.as_str()) });
        i = i + 1;
    }
    out
}

fn build_native(root: &str, native: &Vec<(String, RawNative)>) -> (r: Result<
    Vec<(String, NativeSpec)>,
    ManifestError,
>)
    ensures
        r is Err <==> has_empty_triple(native@),
        r matches Err(e) ==> e@ == ManifestProblem::EmptyNativeTriple,
        r matches Ok(v) ==> v@.len() == native@.len() && forall|i: int|
            0 <= i < v@.len() ==> (#[trigger] v@[i]).0@ == native@[i].0@ && native_under(
                root@,
                native@[i].1,
                v@[i].1,
            ),
{
    let mut out: Vec<(String, NativeSpec)> = Vec::new();
    let mut i: usize = 0;
    while i < native.len()
        invariant
            i <= native.len(),
            out@.len() == i,
            forall|k: int| 0 <= k < i ==> (#[trigger] native@[k]).0@.len() != 0,
            forall|k: int|
                0 <= k < i ==> (#[trigger] out@[k]).0@ == native@[k].0@ && native_under(
                    root@,
                    native@[k].1,
                    out@[k].1,
                ),
        decreases native.len() - i,
    {
        if native[i].0.as_str().unicode_len() == 0 {
            return Err(ManifestError::EmptyNativeTriple);
        }
        let raw = &native[i].1;
        let spec = NativeSpec {
            objects: paths_joined(root, &raw.objects),
            static_libs: paths_joined(root, &raw.static_libs),
            shared_libs: paths_joined(root, &raw.shared_libs),
            runtime_files: paths_joined(root, &raw.runtime_files),
        };
        out.push((native[i].0.clone(), spec));
        i = i + 1;
    }
    Ok(out)
}

/// The value of `key` when it is a string.
fn table_lookup<'a>(entries: &'a Vec<(String, Option<String>)>, key: &str) -> (r: Option<&'a String>)
    ensures
        r matches Some(s) ==> table_text(entries@, key@) == Some(s@),
        r is None ==> table_text(entries@, key@) is None,
{
    let mut i: usize = 0;
    assert(entries@.skip(0) =~= entries@);
    while i < entries.len()
        invariant
            i <= entries.len(),
            table_text(entries@, key@) == table_text(entries@.skip(i as int), key@),
        decreases entries.len() - i,
    {
        assert(entries@.skip(i as int)[0] == entries@[i as int]);
        assert(entries@.skip(i as int).drop_first() =~= entries@.skip(i + 1));
        if str_eq(entries[i].0.as_str(), key) {
            return match &entries[i].1 {
                Some(s) => Some(s),
                None => None,
            };
        }
        i = i + 1;
    }
    None
}

fn dependency_key(k: &str) -> (r: bool)
    ensures
        r == is_dependency_key(k@),
{
    proof {
        reveal_strlit("coordinate");
        reveal_strlit("repository");
        reveal_strlit("path");
        assert("coordinate"@ =~= text_coordinate());
        assert("repository"@ =~= text_repository());
        assert("path"@ =~= text_path());
    }
    str_eq(k, "coordinate") || str_eq(k, "repository") || str_eq(k, "path")
}

fn first_unknown_key(entries: &Vec<(String, Option<String>)>) -> (r: Option<&String>)
    ensures
        r matches Some(s) ==> unknown_key(entries@) == Some(s@),
        r is None ==> unknown_key(entries@) is None,
{
    let mut i: usize = 0;
    assert(entries@.skip(0) =~= entries@);
    while i < entries.len()
        invariant
            i <= entries.len(),
            unknown_key(entries@) == unknown_key(entries@.skip(i as int)),
        decreases entries.len() - i,
    {
        assert(entries@.skip(i as int)[0] == entries@[i as int]);
        assert(entries@.skip(i as int).drop_first() =~= entries@.skip(i + 1));
        if !dependency_key(entries[i].0.as_str()) {
            return Some(&entries[i].0);
        }
        i = i + 1;
    }
    None
}

fn checked_coordinate(c: &String) -> (r: Result<(), ManifestError>)
    ensures
        r is Ok <==> coordinate_problem(c@) is None,
        r matches Err(e) ==> coordinate_problem(c@) == Some(e@),
{
    match coordinate_parts(c.as_str()) {
        Ok(_) => Ok(()),
        Err(fault) => Err(ManifestError::InvalidCoordinate { coordinate: c.clone(), fault }),
    }
}

fn dependency_entry(root: &str, alias: &String, value: &RawDependency) -> (r: Result<
    Dependency,
    ManifestError,
>)
    ensures
        r is Ok <==> dependency_problem(alias@, *value) is None,
        r matches Err(e) ==> dependency_problem(alias@, *value) == Some(e@),
        r matches Ok(d) ==> d.alias@ == alias@ && dependency_kind_of(root@, *value, d.kind),
{
    if !is_valid_alias(alias.as_str()) {
        return Err(ManifestError::InvalidAlias { alias: alias.clone() });
    }
    proof {
        reveal_strlit("coordinate");
        reveal_strlit("repository");
        reveal_strlit("path");
        reveal_strlit("default");
        assert("coordinate"@ =~= text_coordinate());
        assert("repository"@ =~= text_repository());
        assert("path"@ =~= text_path());
        assert("default"@ =~= text_default());
    }
    let kind = match value {
        RawDependency::Text(c) => {
            if let Err(e) = checked_coordinate(c) {
                return Err(e);
            }
            DependencyKind::Coordinate { coordinate: c.clone(), repository: owned("default") }
        },
        RawDependency::Table(entries) => {
            let coordinate = table_lookup(entries, "coordinate");
            let path = table_lookup(entries, "path");
            let repository = table_lookup(entries, "repository");
            if let Some(key) = first_unknown_key(entries) {
                return Err(
                    ManifestError::UnknownDependencyKey { alias: alias.clone(), key: key.clone() },
                );
            }
            match (coordinate, path) {
                (Some(_), Some(_)) => {
                    return Err(ManifestError::CoordinateAndPath { alias: alias.clone() });
                },
                (Some(c), None) => {
                    if let Err(e) = checked_coordinate(c) {
                        return Err(e);
                    }
                    let repository = match repository {
                        Some(r) => r.clone(),
                        None => owned("default"),
                    };
                    DependencyKind::Coordinate { coordinate: c.clone(), repository }
                },
                (None, Some(p)) => {
                    if repository.is_some() {
                        return Err(ManifestError::PathWithRepository { alias: alias.clone() });
                    }
                    DependencyKind::Path(join(root, p.as_str()))
                },
                (None, None) => {
                    return Err(ManifestError::NoCoordinateOrPath { alias: alias.clone() });
                },
            }
        },
        RawDependency::Other(t) => {
            return Err(ManifestError::DependencyType { alias: alias.clone(), found: t.clone() });
        },
    };
    Ok(Dependency { alias: alias.clone(), kind })
}

fn build_dependencies(root: &str, deps: &Vec<(String, RawDependency)>) -> (r: Result<
    Vec<Dependency>,
    ManifestError,
>)
    ensures
        r is Ok <==> first_dependency_problem(deps@, deps@.len() as int) is None,
        r matches Err(e) ==> first_dependency_problem(deps@, deps@.len() as int) == Some(e@),
        r matches Ok(v) ==> v@.len() == deps@.len() && forall|i: int|
            0 <= i < v@.len() ==> (#[trigger] v@[i]).alias@ == deps@[i].0@ && dependency_kind_of(
                root@,
                deps@[i].1,
                v@[i].kind,
            ),
{
    let mut out: Vec<Dependency> = Vec::new();
    let mut i: usize = 0;
    while i < deps.len()
        invariant
            i <= deps.len(),
            out@.len() == i,
            first_dependency_problem(deps@, i as int) is None,
            forall|k: int|
                0 <= k < i ==> (#[trigger] out@[k]).alias@ == deps@[k].0@ && dependency_kind_of(
                    root@,
                    deps@[k].1,
                    out@[k].kind,
                ),
        decreases deps.len() - i,
    {
        let d = match dependency_entry(root, &deps[i].0, &deps[i].1) {
            Ok(d) => d,
            Err(e) => {
                proof {
                    assert(first_dependency_problem(deps@, i + 1) == dependency_problem(
                        deps@[i as int].0@,
                        deps@[i as int].1,
                    ));
                    lemma_first_dependency_stable(deps@, i + 1, deps@.len() as int);
                }
                return Err(e);
            },
        };
        out.push(d);
        i = i + 1;
    }
    Ok(out)
}

proof fn lemma_members<T>(a: Seq<T>, b: Seq<T>)
    requires
        a.to_multiset() == b.to_multiset(),
    ensures
        forall|x: T| a.contains(x) ==> b.contains(x),
{
    broadcast use vstd::seq_lib::group_to_multiset_ensures;

    assert forall|x: T| a.contains(x) implies b.contains(x) by {
        assert(a.to_multiset().count(x) > 0);
        assert(b.to_multiset().count(x) > 0);
    }
}

proof fn lemma_repositories_sorted(
    repos: Seq<(String, String)>,
    built: Seq<(String, String)>,
    sorted: Seq<(String, String)>,
)
    requires
        built.len() == repos.len(),
        forall|k: int|
            0 <= k < built.len() ==> ((#[trigger] built[k]).0@, built[k].1@) == repository_entry(
                repos[k],
            ),
        sorted.to_multiset() == built.to_multiset(),
        sorted.len() == built.len(),
        sorted_by_key(sorted),
    ensures
        repositories_from(repos, sorted),
{
    lemma_members(sorted, built);
    lemma_members(built, sorted);
    assert forall|j: int| 0 <= j < repos.len() implies kept_in(sorted, #[trigger] repos[j]) by {
        assert(built.contains(built[j]));
        assert(sorted.contains(built[j]));
        let k = choose|k: int| 0 <= k < sorted.len() && sorted[k] == built[j];
        assert(((built[j]).0@, built[j].1@) == repository_entry(repos[j]));
    }
    assert forall|k: int| 0 <= k < sorted.len() implies kept_from(repos, #[trigger] sorted[k]) by {
        assert(sorted.contains(sorted[k]));
        assert(built.contains(sorted[k]));
        let j = choose|j: int| 0 <= j < built.len() && built[j] == sorted[k];
        assert(((built[j]).0@, built[j].1@) == repository_entry(repos[j]));
    }
}

fn build_repositories(repos: &Vec<(String, String)>) -> (r: Result<
    Vec<(String, String)>,
    ManifestError,
>)
    ensures
        r is Ok <==> first_repository_problem(repos@, repos@.len() as int) is None,
        r matches Err(e) ==> first_repository_problem(repos@, repos@.len() as int) == Some(e@),
        r matches Ok(v) ==> repositories_from(repos@, v@),
{
    let mut built: Vec<(String, String)> = Vec::new();
    let mut i: usize = 0;
    while i < repos.len()
        invariant
            i <= repos.len(),
            built@.len() == i,
            first_repository_problem(repos@, i as int) is None,
            forall|k: int|
                0 <= k < i ==> ((#[trigger] built@[k]).0@, built@[k].1@) == repository_entry(
                    repos@[k],
                ),
        decreases repos.len() - i,
    {
        let id = &repos[i].0;
        let url = &repos[i].1;
        proof {
            assert(first_repository_problem(repos@, i + 1) == repository_problem(repos@, i as int));
        }
        if !is_valid_repository_id(id.as_str()) {
            proof {
                lemma_first_repository_stable(repos@, i + 1, repos@.len() as int);
            }
            return Err(ManifestError::InvalidRepositoryId { id: id.clone() });
        }
        let lower = to_ascii_lowercase(id.as_str());
        let base = match repository_base(url.as_str()) {
            Ok(b) => b,
            Err(fault) => {
                proof {
                    lemma_first_repository_stable(repos@, i + 1, repos@.len() as int);
                }
                return Err(ManifestError::InvalidRepositoryUrl { url: url.clone(), fault });
            },
        };
        let mut j: usize = 0;
        while j < i
            invariant
                j <= i < repos.len(),
                built@.len() == i,
                first_repository_problem(repos@, i as int) is None,
                is_valid_repository_id_spec(repos@[i as int].0@),
                url_fault(repos@[i as int].1@) is None,
                lower@ == ascii_lowercase(repos@[i as int].0@),
                forall|k: int|
                    0 <= k < i ==> ((#[trigger] built@[k]).0@, built@[k].1@) == repository_entry(
                        repos@[k],
                    ),
                forall|k: int|
                    0 <= k < j ==> ascii_lowercase(repos@[k].0@) != ascii_lowercase(
                        repos@[i as int].0@,
                    ),
            decreases i - j,
        {
            if str_eq(built[j].0.as_str(), lower.as_str()) {
                proof {
                    assert(repository_entry(repos@[j as int]).0 == built@[j as int].0@);
                    lemma_first_repository_stable(repos@, i + 1, repos@.len() as int);
                }
                return Err(ManifestError::DuplicateRepository { id: lower });
            }
            j = j + 1;
        }
        built.push((lower, base));
        i = i + 1;
    }
    let ghost unsorted = built@;
    let sorted = sort_by_key(built);
    proof {
        lemma_repositories_sorted(repos@, unsorted, sorted@);
    }
    Ok(sorted)
}

/// Dependency tables in strictly ascending alias order (as a sorted map
/// keeps them: each alias once).
pub open spec fn aliases_ascending(d: Seq<(String, RawDependency)>) -> bool {
    forall|i: int, j: int| 0 <= i < j < d.len() ==> text_lt((#[trigger] d[i]).0@, (#[trigger] d[j]).0@)
}

/// Whether a decoded dependency table is in strictly ascending alias order.
pub fn raw_aliases_ascending(d: &Vec<(String, RawDependency)>) -> (r: bool)
    ensures
        r == aliases_ascending(d@),
{
    let mut i: usize = 1;
    if d.len() == 0 {
        return true;
    }
    while i < d.len()
        invariant
            1 <= i <= d@.len(),
            forall|a: int, b: int| 0 <= a < b < i ==> text_lt((#[trigger] d@[a]).0@, (#[trigger] d@[b]).0@),
        decreases d@.len() - i,
    {
        if !str_lt(d[i - 1].0.as_str(), d[i].0.as_str()) {
            return false;
        }
        proof {
            assert forall|a: int, b: int| 0 <= a < b < i + 1 implies text_lt((#[trigger] d@[a]).0@, (#[trigger] d@[b]).0@) by {
                if b == i && a < i - 1 {
                    crate::order::lemma_text_lt_transitive(d@[a].0@, d@[i - 1].0@, d@[i as int].0@);
                }
            }
        }
        i = i + 1;
    }
    true
}

/// Checks the decoded manifest found at `path` (in directory `root`) and
/// builds the manifest, with every path resolved against `root`. The
/// dependency table comes in alias order, each alias once, and so do the
/// manifest's dependencies.
pub fn manifest_from_raw(path: &str, root: &str, raw: &RawManifest) -> (r: Result<
    Manifest,
    ManifestError,
>)
    requires
        aliases_ascending(raw.dependencies@),
    ensures
        r matches Ok(m) ==> forall|i: int, j: int|
            0 <= i < j < m.dependencies@.len() ==> text_lt(
                (#[trigger] m.dependencies@[i]).alias@,
                (#[trigger] m.dependencies@[j]).alias@,
            ),
        r is Ok <==> manifest_problem(root@, *raw) is None,
        r matches Err(e) ==> manifest_problem(root@, *raw) == Some(e@),
        r matches Ok(m) ==> manifest_from(path@, root@, *raw, m),
{
    let p = match &raw.package {
        Some(p) => p,
        None => {
            return Err(ManifestError::MissingPackage);
        },
    };
    check_package(p)?;
    proof {
        reveal_strlit("src");
        reveal_strlit("debug");
        reveal_strlit("release");
        reveal_strlit("target");
        assert("src"@ =~= text_src());
        assert("debug"@ =~= text_debug());
        assert("release"@ =~= text_release());
        assert("target"@ =~= text_target());
    }
    let source = match &p.source {
        Some(s) => join(root, s.as_str()),
        None => join(root, "src"),
    };
    if raw.lib.is_none() && raw.bins.len() == 0 {
        return Err(ManifestError::NoTargets);
    }
    let lib = match &raw.lib {
        Some(l) => {
            let lib_path = join(root, l.as_str());
            let parent = parent_path_components(lib_path.as_str());
            let source_parts = path_components(source.as_str());
            if !same_components(&parent, &source_parts) {
                return Err(ManifestError::LibOutsideSource { lib: lib_path, source });
            }
            Some(LibTarget { path: lib_path })
        },
        None => None,
    };
    check_bins(&raw.bins)?;
    let bins = build_bins(root, &raw.bins);
    let optimization = match &raw.build {
        Some(b) => match &b.optimization {
            Some(o) => o.clone(),
            None => owned("debug"),
        },
        None => owned("debug"),
    };
    if !str_eq(optimization.as_str(), "debug") && !str_eq(optimization.as_str(), "release") {
        return Err(ManifestError::InvalidOptimization { value: optimization });
    }
    let output = match &raw.build {
        Some(b) => match &b.output {
            Some(o) => join(root, o.as_str()),
            None => join(root, "target"),
        },
        None => join(root, "target"),
    };
    let native = build_native(root, &raw.native)?;
    let dependencies = build_dependencies(root, &raw.dependencies)?;
    let repositories = build_repositories(&raw.repositories)?;
    Ok(
        Manifest {
            package: Package {
                group: p.group.clone(),
                name: p.name.clone(),
                version: p.version.clone(),
                source,
            },
            lib,
            bins,
            build: BuildConfig { optimization, output },
            native,
            dependencies,
            repositories,
            root: owned(root),
            path: owned(path),
        },
    )
}

/// Splits `group:name:version`, checking each part.
pub fn parse_coordinate(coordinate: &str) -> (r: Result<(String, String, String), ManifestError>)
    ensures
        r is Ok <==> coordinate_fault(coordinate@) is None,
        r matches Ok(parts) ==> parts.0@ == segments(coordinate@, ':')[0] && parts.1@ == segments(
            coordinate@,
            ':',
        )[1] && parts.2@ == segments(coordinate@, ':')[2],
        r matches Err(e) ==> e@ == (ManifestProblem::InvalidCoordinate {
            coordinate: coordinate@,
            fault: coordinate_fault(coordinate@)->0,
        }),
{
    match coordinate_parts(coordinate) {
        Ok(parts) => Ok(parts),
        Err(fault) => Err(ManifestError::InvalidCoordinate { coordinate: owned(coordinate), fault }),
    }
}

/// Checks a repository base URL (`http://`, `https://` or `file://`, with no
/// credentials, query or fragment) and gives it without trailing `/`.
pub fn validate_repository_url(url: &str) -> (r: Result<String, ManifestError>)
    ensures
        r is Ok <==> url_fault(url@) is None,
        r matches Ok(base) ==> base@ == trim_end(url@, '/'),
        r matches Err(e) ==> e@ == (ManifestProblem::InvalidRepositoryUrl {
            url: url@,
            fault: url_fault(url@)->0,
        }),
{
    match repository_base(url) {
        Ok(base) => Ok(base),
        Err(fault) => Err(ManifestError::InvalidRepositoryUrl { url: owned(url), fault }),
    }
}

proof fn lemma_trim_end_settled(s: Seq<char>, c: char)
    ensures
        trim_end(s, c).len() == 0 || trim_end(s, c).last() != c,
        trim_end(trim_end(s, c), c) == trim_end(s, c),
    decreases s.len(),
{
    if s.len() > 0 && s.last() == c {
        lemma_trim_end_settled(s.drop_last(), c);
    }
}

/// `validate_repository_url` is idempotent: when it accepts `url` it gives
/// the base `trim_end(url, '/')`, and that base is accepted in turn and
/// gives itself back (`Ok(b) ==> validate_repository_url(b) == Ok(b)`).
pub proof fn validate_repository_url_is_idempotent(url: Seq<char>)
    requires
        url_fault(url) is None,
    ensures
        url_fault(trim_end(url, '/')) is None,
        trim_end(trim_end(url, '/'), '/') == trim_end(url, '/'),
{
    lemma_trim_end_settled(url, '/');
}

/// The number of `\n` bytes in `b`.
pub open spec fn newline_count(b: Seq<u8>) -> nat
    decreases b.len(),
{
    if b.len() == 0 {
        0
    } else {
        newline_count(b.drop_last()) + if b.last() == 10u8 {
            1nat
        } else {
            0nat
        }
    }
}

/// The number of characters UTF-8 bytes `b` encode: the bytes that do not
/// continue a character.
pub open spec fn char_count(b: Seq<u8>) -> nat
    decreases b.len(),
{
    if b.len() == 0 {
        0
    } else {
        char_count(b.drop_last()) + if (b.last() & 0xC0u8) != 0x80u8 {
            1nat
        } else {
            0nat
        }
    }
}

/// Where a decoding error at byte `start` of `text` stands: its line
/// (counting from 1), and its column: the characters after the last line
/// break before it plus one, or `start + 1` on the first line.
pub open spec fn error_position_of(text: Seq<u8>, start: int) -> (int, int) {
    let before = text.take(start);
    let line: int = newline_count(before) as int + 1;
    let column: int = if newline_count(before) > 0 {
        char_count(before.skip(last_newline(before) + 1)) as int + 1
    } else {
        start + 1
    };
    (line, column)
}

/// The position of the last `\n` in `b`.
pub open spec fn last_newline(b: Seq<u8>) -> int
    decreases b.len(),
{
    if b.len() == 0 {
        -1
    } else if b.last() == 10u8 {
        b.len() - 1
    } else {
        last_newline(b.drop_last())
    }
}

proof fn lemma_last_newline(b: Seq<u8>)
    ensures
        -1 <= last_newline(b) < b.len(),
        newline_count(b) > 0 <==> last_newline(b) >= 0,
        last_newline(b) >= 0 ==> b[last_newline(b)] == 10u8,
        forall|j: int| last_newline(b) < j < b.len() ==> b[j] != 10u8,
    decreases b.len(),
{
    if b.len() > 0 {
        lemma_last_newline(b.drop_last());
        assert forall|j: int| last_newline(b) < j < b.len() implies b[j] != 10u8 by {
            if j < b.len() - 1 {
                assert(b[j] == b.drop_last()[j]);
            }
        }
    }
}

/// The line and column of the byte `start` of `text` as a TOML error names
/// them.
pub fn error_position(text: &[u8], start: usize) -> (r: (usize, usize))
    requires
        start <= text@.len(),
        start < usize::MAX,
    ensures
        r.0 == error_position_of(text@, start as int).0,
        r.1 == error_position_of(text@, start as int).1,
{
    let ghost before = text@.take(start as int);
    let mut lines: usize = 0;
    let mut last: Option<usize> = None;
    let mut i: usize = 0;
    while i < start
        invariant
            i <= start <= text@.len(),
            before == text@.take(start as int),
            lines == newline_count(text@.take(i as int)),
            lines <= i,
            match last {
                Some(k) => k < i && k == last_newline(text@.take(i as int)),
                None => last_newline(text@.take(i as int)) == -1,
            },
        decreases start - i,
    {
        assert(text@.take(i + 1).drop_last() =~= text@.take(i as int));
        if text[i] == 10u8 {
            lines = lines + 1;
            last = Some(i);
        }
        i = i + 1;
    }
    proof {
        lemma_last_newline(before);
    }
    let column = match last {
        None => start + 1,
        Some(k) => {
            let mut count: usize = 0;
            let mut j: usize = k + 1;
            let ghost tail_start = (k + 1) as int;
            while j < start
                invariant
                    k + 1 <= j <= start <= text@.len(),
                    tail_start == k + 1,
                    before == text@.take(start as int),
                    count == char_count(before.skip(tail_start).take(j - tail_start)),
                    count <= j - tail_start,
                decreases start - j,
            {
                assert(before.skip(tail_start).take(j + 1 - tail_start).drop_last() =~= before.skip(
                    tail_start,
                ).take(j - tail_start));
                assert(before.skip(tail_start)[j - tail_start] == text@[j as int]);
                if (text[j] & 0xC0u8) != 0x80u8 {
                    count = count + 1;
                }
                j = j + 1;
            }
            assert(before.skip(tail_start).take(start - tail_start) =~= before.skip(tail_start));
            count + 1
        },
    };
    (lines + 1, column)
}

} // verus!
