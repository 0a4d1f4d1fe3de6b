//! Package identity and the resolved package graph.
//!
//! Every package has a compile-time module prefix: empty for the root
//! package, `std` for the standard library, and `@<id>` for a dependency. The
//! `@` cannot start an identifier, so a dependency's modules never collide
//! with a user module.
use vstd::prelude::*;

use crate::manifest::{coordinate_text, Manifest};
use crate::text::{
    decimal, push_decimal, push_str, rfind_char, str_eq, chars_of, last_index, lemma_last_index,
    string_of,
};

verus! {

/// A package's identity: `ROOT` is the package being compiled, `STD` the
/// standard library, any other value a dependency.
#[derive(Clone, Copy, PartialEq, Eq, Hash, PartialOrd, Ord, Debug, Structural)]
pub struct PackageId(pub u32);

impl PackageId {
    /// The package being compiled.
    pub fn root() -> (r: PackageId)
        ensures
            r.0 == 0,
    {
        PackageId(0)
    }

    /// The standard library: a sentinel, so that it never meets a dependency
    /// numbered `0, 1, 2, ...`.
    pub fn standard() -> (r: PackageId)
        ensures
            r.0 == u32::MAX,
    {
        PackageId(u32::MAX)
    }

    /// The compile-time module prefix.
    pub fn prefix(self) -> (r: String)
        ensures
            r@ == package_prefix(self.0),
    {
        let mut r = String::new();
        if self.0 == 0 {
        } else if self.0 == 4294967295u32 {
            push_str(&mut r, "std");
            proof {
                reveal_strlit("std");
            }
        } else {
            crate::text::push_char(&mut r, '@');
            push_decimal(&mut r, self.0 as u64);
        }
        r
    }

    /// How the package is named in messages: `<root>`, `std` or
    /// `package#<id>`.
    pub fn display(self) -> (r: String)
        ensures
            r@ == package_display(self.0),
    {
        let mut r = String::new();
        if self.0 == 0 {
            push_str(&mut r, "<root>");
            proof {
                reveal_strlit("<root>");
            }
        } else if self.0 == 4294967295u32 {
            push_str(&mut r, "std");
            proof {
                reveal_strlit("std");
            }
        } else {
            push_str(&mut r, "package#");
            proof {
                reveal_strlit("package#");
            }
            push_decimal(&mut r, self.0 as u64);
        }
        r
    }
}

/// The module prefix of package `id`.
pub open spec fn package_prefix(id: u32) -> Seq<char> {
    if id == 0 {
        seq![]
    } else if id == 4294967295u32 {
        seq!['s', 't', 'd']
    } else {
        seq!['@'] + decimal(id as nat)
    }
}

/// The name of package `id` in messages.
pub open spec fn package_display(id: u32) -> Seq<char> {
    if id == 0 {
        seq!['<', 'r', 'o', 'o', 't', '>']
    } else if id == 4294967295u32 {
        seq!['s', 't', 'd']
    } else {
        seq!['p', 'a', 'c', 'k', 'a', 'g', 'e', '#'] + decimal(id as nat)
    }
}

/// Where a package came from.
#[derive(Clone, Debug, PartialEq, Eq)]
pub enum PackageSource {
    /// The root project.
    Root,
    /// A local path dependency: its canonical project directory.
    Path(String),
    /// A remote dependency: repository id, base URL and archive digest.
    Remote { repository: String, base: String, sha256: String },
}

/// The source as a lock file records it.
pub open spec fn lock_source_text(s: PackageSource) -> Seq<char> {
    match s {
        PackageSource::Root => seq!['r', 'o', 'o', 't'],
        PackageSource::Path(_) => seq!['p', 'a', 't', 'h'],
        PackageSource::Remote { base, .. } => base@,
    }
}

impl PackageSource {
    /// The source as a lock file records it: `root`, `path`, or the base URL.
    pub fn lock_source(&self) -> (r: String)
        ensures
            r@ == lock_source_text(*self),
    {
        match self {
            PackageSource::Root => {
                proof {
                    reveal_strlit("root");
                }
                "root".to_owned()
            },
            PackageSource::Path(_) => {
                proof {
                    reveal_strlit("path");
                }
                "path".to_owned()
            },
            PackageSource::Remote { base, .. } => base.clone(),
        }
    }
}

/// A resolved package: identity, source, manifest, directories and its own
/// dependency aliases.
#[derive(Clone, Debug)]
pub struct PackageInfo {
    pub id: PackageId,
    pub manifest: Manifest,
    /// The package directory.
    pub root: String,
    /// The source directory (`[package].source`).
    pub source_root: String,
    pub source: PackageSource,
    /// The compile-time module prefix.
    pub prefix: String,
    /// This package's dependency aliases and the packages they name, in
    /// alias order.
    pub aliases: Vec<(String, PackageId)>,
}

/// An alias table in strictly ascending alias order (as a sorted map keeps
/// it: each alias once).
pub open spec fn aliases_sorted(aliases: Seq<(String, PackageId)>) -> bool {
    forall|i: int, j: int|
        0 <= i < j < aliases.len() ==> crate::order::text_lt(
            (#[trigger] aliases[i]).0@,
            (#[trigger] aliases[j]).0@,
        )
}

/// Every package's alias table is in alias order.
pub open spec fn all_aliases_sorted(pkgs: Seq<PackageInfo>) -> bool {
    forall|p: int| 0 <= p < pkgs.len() ==> aliases_sorted(#[trigger] pkgs[p].aliases@)
}

impl PackageInfo {
    /// The package coordinate.
    pub fn coordinate(&self) -> (r: String)
        ensures
            r@ == coordinate_text(
                self.manifest.package.group@,
                self.manifest.package.name@,
                self.manifest.package.version@,
            ),
    {
        self.manifest.package.coordinate()
    }

    /// The package name.
    pub fn name(&self) -> (r: &str)
        ensures
            r@ == self.manifest.package.name@,
    {
        self.manifest.package.name.as_str()
    }
}

/// The dependency graph: packages are nodes, dependencies edges.
#[derive(Clone, Debug)]
pub struct PackageGraph {
    pub root: PackageId,
    /// Indexed by `PackageId`.
    pub packages: Vec<PackageInfo>,
    /// A deterministic topological order of the package ids: depended-on
    /// packages before the packages that use them.
    pub order: Vec<PackageId>,
}

impl PackageGraph {
    /// The package with id `id`.
    pub fn get(&self, id: PackageId) -> (r: &PackageInfo)
        requires
            (id.0 as int) < self.packages@.len(),
        ensures
            *r == self.packages@[id.0 as int],
    {
        &self.packages[id.0 as usize]
    }

    /// All packages, by id.
    pub fn iter(&self) -> (r: &Vec<PackageInfo>)
        ensures
            r@ == self.packages@,
    {
        &self.packages
    }

    /// The packages in topological order, dependencies first.
    pub fn order_iter(&self) -> (r: Vec<&PackageInfo>)
        requires
            forall|i: int| 0 <= i < self.order@.len() ==> (#[trigger] self.order@[i].0 as int) < self.packages@.len(),
        ensures
            r@.len() == self.order@.len(),
            forall|i: int| 0 <= i < r@.len() ==> *r@[i] == self.packages@[#[trigger] self.order@[i].0 as int],
    {
        let mut out: Vec<&PackageInfo> = Vec::new();
        let mut i: usize = 0;
        while i < self.order.len()
            invariant
                i <= self.order.len(),
                out@.len() == i,
                forall|k: int| 0 <= k < self.order@.len() ==> (#[trigger] self.order@[k].0 as int) < self.packages@.len(),
                forall|k: int| 0 <= k < i ==> *out@[k] == self.packages@[#[trigger] self.order@[k].0 as int],
            decreases self.order.len() - i,
        {
            let id = self.order[i];
            out.push(self.get(id));
            i = i + 1;
        }
        out
    }

    /// The first package with this group and name.
    pub fn find_by_name(&self, group: &str, name: &str) -> (r: Option<&PackageInfo>)
        ensures
            r is Some <==> exists|i: int|
                0 <= i < self.packages@.len() && #[trigger] self.packages@[i].manifest.package.group@ == group@
                    && self.packages@[i].manifest.package.name@ == name@,
            r matches Some(p) ==> exists|i: int|
                0 <= i < self.packages@.len() && *p == self.packages@[i] && p.manifest.package.group@
                    == group@ && p.manifest.package.name@ == name@ && forall|j: int|
                    0 <= j < i ==> !(self.packages@[j].manifest.package.group@ == group@
                        && self.packages@[j].manifest.package.name@ == name@),
    {
        let mut i: usize = 0;
        while i < self.packages.len()
            invariant
                i <= self.packages.len(),
                forall|j: int|
                    0 <= j < i ==> !(#[trigger] self.packages@[j].manifest.package.group@ == group@
                        && self.packages@[j].manifest.package.name@ == name@),
            decreases self.packages.len() - i,
        {
            let p = &self.packages[i];
            if str_eq(p.manifest.package.group.as_str(), group) && str_eq(
                p.manifest.package.name.as_str(),
                name,
            ) {
                return Some(p);
            }
            i = i + 1;
        }
        None
    }
}

/// The module of a qualified definition name: everything before its last
/// `.`, or the root module (empty) when there is none.
pub open spec fn module_text(qualified: Seq<char>) -> Seq<char> {
    match last_index(qualified, '.') {
        Some(i) => qualified.take(i),
        None => seq![],
    }
}

/// The module that a qualified definition name (`module.path.Name`)
/// belongs to.
pub fn module_of(qualified_name: &str) -> (r: String)
    ensures
        r@ == module_text(qualified_name@),
{
    let chars = chars_of(qualified_name);
    proof {
        lemma_last_index(chars@, '.');
    }
    match rfind_char(&chars, '.') {
        Some(i) => {
            let r = string_of(&chars, 0, i);
            assert(chars@.subrange(0, i as int) =~= chars@.take(i as int));
            r
        },
        None => String::new(),
    }
}

/// A package prefix and a module name joined into a global module name.
pub open spec fn qualified_module(prefix: Seq<char>, module: Seq<char>) -> Seq<char> {
    if prefix.len() == 0 {
        module
    } else if module.len() == 0 {
        prefix
    } else {
        prefix + seq!['.'] + module
    }
}

/// Joins a package prefix and a module name into a global module name.
pub fn qualify_module(prefix: &str, module: &str) -> (r: String)
    ensures
        r@ == qualified_module(prefix@, module@),
{
    let mut r = String::new();
    if prefix.unicode_len() == 0 {
        push_str(&mut r, module);
    } else if module.unicode_len() == 0 {
        push_str(&mut r, prefix);
    } else {
        push_str(&mut r, prefix);
        crate::text::push_char(&mut r, '.');
        push_str(&mut r, module);
    }
    r
}

/// A qualified module name splits back into its package prefix: the module
/// of `prefix.module.Name` is `prefix.module`, and qualifying with an empty
/// prefix changes nothing.
pub proof fn lemma_module_of_qualified(prefix: Seq<char>, module: Seq<char>, name: Seq<char>)
    requires
        !crate::text::has_char(name, '.'),
        module.len() > 0 || prefix.len() > 0,
    ensures
        module_text(qualified_module(prefix, module) + seq!['.'] + name) == qualified_module(
            prefix,
            module,
        ),
        qualified_module(seq![], module) == module,
{
    let q = qualified_module(prefix, module);
    let s = q + seq!['.'] + name;
    lemma_last_index(s, '.');
    assert(s[q.len() as int] == '.');
    assert forall|j: int| q.len() < j < s.len() implies s[j] != '.' by {
        assert(s[j] == name[j - q.len() - 1]);
    }
    crate::text::lemma_last_index_at(s, '.', q.len() as int);
    assert(s.take(q.len() as int) =~= q);
}

} // verus!
