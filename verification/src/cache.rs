//! The content-addressed package cache layout.
//!
//! ```text
//! <home>/cache/packages/sha256/<digest>/package.dlib
//! <home>/cache/packages/sha256/<digest>/unpacked/...
//! <home>/cache/index/<SHA-256 of the repository base URL>/<group dirs>/<name>/<version>.toml
//! ```
//!
//! Reading and writing the files is the caller's part.
use vstd::prelude::*;

use crate::digest::{hex_text, sha256_hex, sha256_of};
use crate::order::{keyed_map, keyed_map_of, TextKeyed};
use crate::paths::{join, joined};
use vstd::string::StringSliceAdditionalSpecFns;
use crate::text::{chars_of, push_str, range_holds, segments, split_ranges, string_of};

verus! {

/// One coordinate index entry: a verified archive digest.
#[derive(Debug, Clone, PartialEq, Eq)]
pub struct IndexEntry {
    pub coordinate: String,
    pub source: String,
    pub sha256: String,
}

/// The package cache rooted at a home directory.
#[derive(Debug, Clone)]
pub struct Cache {
    home: String,
}

impl View for Cache {
    type V = Seq<char>;

    closed spec fn view(&self) -> Seq<char> {
        self.home@
    }
}

/// `home/cache/packages/sha256/<digest>`.
pub open spec fn digest_dir(home: Seq<char>, sha256: Seq<char>) -> Seq<char> {
    joined(joined(joined(joined(home, "cache"@), "packages"@), "sha256"@), sha256)
}

/// `home/cache/index/<SHA-256 of the base URL's bytes>`.
pub open spec fn index_root(home: Seq<char>, base: Seq<u8>) -> Seq<char> {
    joined(joined(joined(home, "cache"@), "index"@), hex_text(sha256_of(base)))
}

/// `dir` with each of `parts` pushed in turn.
pub open spec fn pushed_all(dir: Seq<char>, parts: Seq<Seq<char>>) -> Seq<char>
    decreases parts.len(),
{
    if parts.len() == 0 {
        dir
    } else {
        joined(pushed_all(dir, parts.drop_last()), parts.last())
    }
}

/// The index file for `group:name:version` from repository `base`:
/// `<index root>/<group split at .>/<name>/<version>.toml`.
pub open spec fn index_file(home: Seq<char>, base: Seq<u8>, group: Seq<char>, name: Seq<char>, version: Seq<char>) -> Seq<char> {
    joined(
        joined(pushed_all(index_root(home, base), segments(group, '.')), name),
        version + ".toml"@,
    )
}

impl Cache {
    /// The cache rooted at `home`.
    pub fn at(home: String) -> (r: Cache)
        ensures
            r@ == home@,
    {
        Cache { home }
    }

    /// The cache's home directory.
    pub fn home(&self) -> (r: &str)
        ensures
            r@ == self@,
    {
        self.home.as_str()
    }

    /// Where the archive with digest `sha256` is kept.
    pub fn archive_path(&self, sha256: &str) -> (r: String)
        ensures
            r@ == joined(digest_dir(self@, sha256@), "package.dlib"@),
    {
        let dir = self.digest_directory(sha256);
        join(dir.as_str(), "package.dlib")
    }

    /// Where the archive with digest `sha256` is unpacked.
    pub fn unpacked_dir(&self, sha256: &str) -> (r: String)
        ensures
            r@ == joined(digest_dir(self@, sha256@), "unpacked"@),
    {
        let dir = self.digest_directory(sha256);
        join(dir.as_str(), "unpacked")
    }

    fn digest_directory(&self, sha256: &str) -> (r: String)
        ensures
            r@ == digest_dir(self@, sha256@),
    {
        let a = join(self.home.as_str(), "cache");
        let b = join(a.as_str(), "packages");
        let c = join(b.as_str(), "sha256");
        join(c.as_str(), sha256)
    }

    /// The directory that holds the index of repository `base`.
    pub fn index_directory(&self, base: &str) -> (r: String)
        ensures
            r@ == index_root(self@, base.spec_bytes()),
    {
        let a = join(self.home.as_str(), "cache");
        let b = join(a.as_str(), "index");
        let digest = sha256_hex(base.as_bytes());
        join(b.as_str(), digest.as_str())
    }

    /// The index file of `group:name:version` from repository `base`.
    pub fn index_path(&self, base: &str, group: &str, name: &str, version: &str) -> (r: String)
        ensures
            r@ == index_file(self@, base.spec_bytes(), group@, name@, version@),
    {
        let mut path = self.index_directory(base);
        let chars = chars_of(group);
        let ranges = split_ranges(&chars, '.');
        let ghost segs = segments(chars@, '.');
        let ghost root = path@;
        let mut i: usize = 0;
        while i < ranges.len()
            invariant
                i <= ranges.len(),
                chars@ == group@,
                segs == segments(chars@, '.'),
                ranges@.len() == segs.len(),
                forall|k: int| 0 <= k < ranges@.len() ==> #[trigger] range_holds(chars@, ranges@[k], segs[k]),
                root == index_root(self@, base.spec_bytes()),
                path@ == pushed_all(root, segs.take(i as int)),
            decreases ranges.len() - i,
        {
            let (from, to) = ranges[i];
            assert(range_holds(chars@, ranges@[i as int], segs[i as int]));
            let segment = string_of(&chars, from, to);
            path = join(path.as_str(), segment.as_str());
            assert(segs.take(i + 1).drop_last() =~= segs.take(i as int));
            i = i + 1;
        }
        assert(segs.take(ranges.len() as int) =~= segs);
        path = join(path.as_str(), name);
        let mut file = String::new();
        push_str(&mut file, version);
        push_str(&mut file, ".toml");
        join(path.as_str(), file.as_str())
    }
}

impl TextKeyed for IndexEntry {
    open spec fn key_view(&self) -> Seq<char> {
        self.coordinate@
    }

    fn text_key(&self) -> (r: &str) {
        self.coordinate.as_str()
    }
}

impl Cache {
    /// The known coordinates of a repository's index, from the entries found
    /// under its index directory in walk order: one entry per coordinate (a
    /// later one wins), in coordinate order.
    pub fn index_snapshot(found: Vec<IndexEntry>) -> (r: Vec<IndexEntry>)
        ensures
            keyed_map_of(found@, r@),
    {
        keyed_map(found)
    }
}

/// Different digests are stored at different archive paths, for digests
/// that neither start nor end with `/` (a hexadecimal digest never does).
pub proof fn archive_paths_are_distinct(home: Seq<char>, a: Seq<char>, b: Seq<char>)
    requires
        a != b,
        a.len() > 0 && a[0] != '/' && a.last() != '/',
        b.len() > 0 && b[0] != '/' && b.last() != '/',
    ensures
        joined(digest_dir(home, a), "package.dlib"@) != joined(digest_dir(home, b), "package.dlib"@),
{
    reveal_strlit("cache");
    reveal_strlit("packages");
    reveal_strlit("sha256");
    reveal_strlit("package.dlib");
    let base = joined(joined(joined(home, "cache"@), "packages"@), "sha256"@);
    assert(base.len() > 0 && base.last() == '6');
    let tail = seq!['/'] + "package.dlib"@;
    let pa = joined(digest_dir(home, a), "package.dlib"@);
    let pb = joined(digest_dir(home, b), "package.dlib"@);
    assert(digest_dir(home, a) == base + seq!['/'] + a);
    assert(digest_dir(home, b) == base + seq!['/'] + b);
    assert(pa =~= base + seq!['/'] + a + tail);
    assert(pb =~= base + seq!['/'] + b + tail);
    if pa == pb {
        let start: int = base.len() as int + 1;
        assert(a.len() == b.len());
        assert(pa.subrange(start, start + a.len()) =~= a);
        assert(pb.subrange(start, start + b.len()) =~= b);
    }
}

} // verus!
