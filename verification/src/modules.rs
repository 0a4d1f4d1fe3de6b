//! Module and name resolution rules: the module a source file defines,
//! the package path it must declare, how `use` paths and imported names
//! resolve, and how constructor and callee names are qualified.
//!
//! Import tables map a bound name to what it names; type tables list the
//! qualified names of the known types.
use vstd::prelude::*;

use crate::names::split_at_first;
use crate::package::{qualified_module, qualify_module, PackageId};
use crate::paths::{components, path_components, texts};
use crate::text::{
    chars_of, find_char, last_index, lemma_first_index, lemma_last_index, push_char, push_str,
    rfind_char, starts_with, str_eq, string_of,
};

verus! {

/// The sources of one package to load.
#[derive(Debug, Clone)]
pub struct PackageSources {
    pub id: PackageId,
    /// The compile-time module prefix (empty for the root package).
    pub prefix: String,
    /// This package's dependency aliases and the prefixes they stand for.
    pub aliases: Vec<(String, String)>,
    pub source_root: String,
    /// Entry files to leave out.
    pub exclude: Vec<String>,
}

/// What a `use` binds a name to.
#[derive(Debug, Clone, PartialEq, Eq)]
pub enum ImportBinding {
    Module(String),
    Function(String),
    Trait(String),
    Type(String),
}

/// `module.name`, or `name` in the root module.
pub open spec fn qualified(module: Seq<char>, name: Seq<char>) -> Seq<char> {
    if module.len() == 0 {
        name
    } else {
        module + seq!['.'] + name
    }
}

/// Qualifies `name` with `module`.
pub fn qualify(module: &str, name: &str) -> (r: String)
    ensures
        r@ == qualified(module@, name@),
{
    let mut r = String::new();
    if module.unicode_len() > 0 {
        push_str(&mut r, module);
        push_char(&mut r, '.');
    }
    push_str(&mut r, name);
    r
}

/// How a module is named in messages: `<root>` for the root module.
pub fn display_module(module: &str) -> (r: &str)
    ensures
        r@ == (if module@.len() == 0 { "<root>"@ } else { module@ }),
{
    if module.unicode_len() == 0 {
        "<root>"
    } else {
        module
    }
}

/// The binding of `key` in an import table.
pub open spec fn binding(imports: Seq<(String, ImportBinding)>, key: Seq<char>) -> Option<ImportBinding>
    decreases imports.len(),
{
    if imports.len() == 0 {
        None
    } else if imports[0].0@ == key {
        Some(imports[0].1)
    } else {
        binding(imports.drop_first(), key)
    }
}

pub(crate) fn lookup<'a>(imports: &'a Vec<(String, ImportBinding)>, key: &str) -> (r: Option<&'a ImportBinding>)
    ensures
        r matches Some(b) ==> binding(imports@, key@) == Some(*b),
        r is None ==> binding(imports@, key@) is None,
{
    let mut i: usize = 0;
    assert(imports@.skip(0) =~= imports@);
    while i < imports.len()
        invariant
            i <= imports.len(),
            binding(imports@, key@) == binding(imports@.skip(i as int), key@),
        decreases imports.len() - i,
    {
        assert(imports@.skip(i as int)[0] == imports@[i as int]);
        assert(imports@.skip(i as int).drop_first() =~= imports@.skip(i + 1));
        if str_eq(imports[i].0.as_str(), key) {
            return Some(&imports[i].1);
        }
        i = i + 1;
    }
    None
}

/// The target of `key` in an alias table.
pub open spec fn alias_target(aliases: Seq<(String, String)>, key: Seq<char>) -> Option<Seq<char>>
    decreases aliases.len(),
{
    if aliases.len() == 0 {
        None
    } else if aliases[0].0@ == key {
        Some(aliases[0].1@)
    } else {
        alias_target(aliases.drop_first(), key)
    }
}

fn lookup_alias<'a>(aliases: &'a Vec<(String, String)>, key: &str) -> (r: Option<&'a String>)
    ensures
        r matches Some(t) ==> alias_target(aliases@, key@) == Some(t@),
        r is None ==> alias_target(aliases@, key@) is None,
{
    let mut i: usize = 0;
    assert(aliases@.skip(0) =~= aliases@);
    while i < aliases.len()
        invariant
            i <= aliases.len(),
            alias_target(aliases@, key@) == alias_target(aliases@.skip(i as int), key@),
        decreases aliases.len() - i,
    {
        assert(aliases@.skip(i as int)[0] == aliases@[i as int]);
        assert(aliases@.skip(i as int).drop_first() =~= aliases@.skip(i + 1));
        if str_eq(aliases[i].0.as_str(), key) {
            return Some(&aliases[i].1);
        }
        i = i + 1;
    }
    None
}

/// `name` is listed in `names`.
pub open spec fn listed(names: Seq<String>, name: Seq<char>) -> bool {
    exists|i: int| 0 <= i < names.len() && (#[trigger] names[i])@ == name
}

fn is_listed(names: &Vec<String>, name: &str) -> (r: bool)
    ensures
        r == listed(names@, name@),
{
    let mut i: usize = 0;
    while i < names.len()
        invariant
            i <= names.len(),
            forall|k: int| 0 <= k < i ==> (#[trigger] names@[k])@ != name@,
        decreases names.len() - i,
    {
        if str_eq(names[i].as_str(), name) {
            return true;
        }
        i = i + 1;
    }
    false
}

/// `s` cut at its first `c`, as two strings.
pub(crate) fn split_once(s: &str, c: char) -> (r: Option<(String, String)>)
    ensures
        r is Some <==> split_at_first(s@, c).1 is Some,
        r matches Some(parts) ==> parts.0@ == split_at_first(s@, c).0 && parts.1@ == split_at_first(
            s@,
            c,
        ).1->0,
{
    let chars = chars_of(s);
    proof {
        lemma_first_index(chars@, c);
    }
    match find_char(&chars, c) {
        Some(i) => {
            let a = string_of(&chars, 0, i);
            let b = string_of(&chars, i + 1, chars.len());
            assert(chars@.subrange(0, i as int) =~= chars@.take(i as int));
            assert(chars@.subrange(i + 1, chars@.len() as int) =~= chars@.skip(i + 1));
            Some((a, b))
        },
        None => None,
    }
}

/// `s` cut at its last `c`: before and after.
pub open spec fn split_at_last(s: Seq<char>, c: char) -> Option<(Seq<char>, Seq<char>)> {
    match last_index(s, c) {
        Some(i) => Some((s.take(i), s.skip(i + 1))),
        None => None,
    }
}

pub(crate) fn rsplit_once(s: &str, c: char) -> (r: Option<(String, String)>)
    ensures
        r is Some <==> split_at_last(s@, c) is Some,
        r matches Some(parts) ==> (parts.0@, parts.1@) == split_at_last(s@, c)->0,
{
    let chars = chars_of(s);
    proof {
        lemma_last_index(chars@, c);
    }
    match rfind_char(&chars, c) {
        Some(i) => {
            let a = string_of(&chars, 0, i);
            let b = string_of(&chars, i + 1, chars.len());
            assert(chars@.subrange(0, i as int) =~= chars@.take(i as int));
            assert(chars@.subrange(i + 1, chars@.len() as int) =~= chars@.skip(i + 1));
            Some((a, b))
        },
        None => None,
    }
}

/// The standard definition a prelude name (`Option`, `Result`, `Iterator`,
/// or a member path under one of them) stands for.
pub open spec fn prelude_path(name: Seq<char>) -> Option<Seq<char>> {
    let (first, rest) = split_at_first(name, '.');
    let target = if first == "Option"@ {
        Some("std.Option"@)
    } else if first == "Result"@ {
        Some("std.Result"@)
    } else if first == "Iterator"@ {
        Some("std.Iterator"@)
    } else {
        None
    };
    match target {
        Some(t) => Some(
            match rest {
                Some(r) => t + seq!['.'] + r,
                None => t,
            },
        ),
        None => None,
    }
}

/// Maps a prelude name to its standard definition.
pub fn resolve_prelude_path(name: &str) -> (r: Option<String>)
    ensures
        r is Some <==> prelude_path(name@) is Some,
        r matches Some(p) ==> prelude_path(name@) == Some(p@),
{
    let (first, rest) = match split_once(name, '.') {
        Some((first, rest)) => (first, Some(rest)),
        None => (name.to_owned(), None),
    };
    let target = if str_eq(first.as_str(), "Option") {
        "std.Option"
    } else if str_eq(first.as_str(), "Result") {
        "std.Result"
    } else if str_eq(first.as_str(), "Iterator") {
        "std.Iterator"
    } else {
        return None;
    };
    let mut r = String::new();
    push_str(&mut r, target);
    match rest {
        Some(rest) => {
            push_char(&mut r, '.');
            push_str(&mut r, rest.as_str());
        },
        None => {},
    }
    Some(r)
}

/// The global path a `use` path names: a leading dependency alias stands
/// for that package's prefix, `std` stays as it is, and anything else is a
/// module of the current package.
pub open spec fn import_path(prefix: Seq<char>, aliases: Seq<(String, String)>, raw: Seq<char>) -> Seq<char> {
    let (first, rest) = split_at_first(raw, '.');
    match alias_target(aliases, first) {
        Some(target) => match rest {
            Some(r) => target + seq!['.'] + r,
            None => target,
        },
        None => if first == "std"@ {
            raw
        } else {
            qualified_module(prefix, raw)
        },
    }
}

/// Resolves a `use` path written in a package with module prefix `prefix`
/// and dependency aliases `aliases`.
pub fn resolve_import_path(prefix: &str, aliases: &Vec<(String, String)>, raw: &str) -> (r: String)
    ensures
        r@ == import_path(prefix@, aliases@, raw@),
{
    let (first, rest) = match split_once(raw, '.') {
        Some((first, rest)) => (first, Some(rest)),
        None => (raw.to_owned(), None),
    };
    if let Some(target) = lookup_alias(aliases, first.as_str()) {
        let mut r = target.clone();
        match rest {
            Some(rest) => {
                push_char(&mut r, '.');
                push_str(&mut r, rest.as_str());
            },
            None => {},
        }
        return r;
    }
    if str_eq(first.as_str(), "std") {
        return raw.to_owned();
    }
    qualify_module(prefix, raw)
}

/// `path` is a module, or the package prefix of some module.
pub open spec fn module_or_namespace(path: Seq<char>, modules: Seq<String>) -> bool {
    listed(modules, path) || exists|i: int|
        0 <= i < modules.len() && starts_with((#[trigger] modules[i])@, path + seq!['.'])
}

/// Whether `path` can be the target of a `use`: a whole module, or a
/// prefix of some module (a package-level import).
pub fn is_module_or_namespace(path: &str, modules: &Vec<String>) -> (r: bool)
    ensures
        r == module_or_namespace(path@, modules@),
{
    if is_listed(modules, path) {
        return true;
    }
    let mut prefix = String::new();
    push_str(&mut prefix, path);
    push_char(&mut prefix, '.');
    let p = chars_of(prefix.as_str());
    let mut i: usize = 0;
    while i < modules.len()
        invariant
            i <= modules.len(),
            p@ == path@ + seq!['.'],
            forall|k: int| 0 <= k < i ==> !starts_with((#[trigger] modules@[k])@, path@ + seq!['.']),
        decreases modules.len() - i,
    {
        let m = chars_of(modules[i].as_str());
        if p.len() <= m.len() && crate::text::matches_at(&m, &p, 0) {
            assert(starts_with(modules@[i as int]@, path@ + seq!['.']));
            return true;
        }
        i = i + 1;
    }
    false
}

/// The canonical `std.mem.<name>` of a call to a built-in memory function,
/// written `std.mem.<name>` or through a `use` of `std.mem`.
pub open spec fn std_mem_call(imports: Seq<(String, ImportBinding)>, callee: Seq<char>) -> Option<Seq<char>> {
    let (first, rest) = split_at_first(callee, '.');
    match rest {
        None => None,
        Some(r) => if first == "std"@ {
            if starts_with(r, "mem."@) {
                Some("std.mem."@ + r.skip(4))
            } else {
                None
            }
        } else {
            match binding(imports, first) {
                Some(ImportBinding::Module(m)) => if m@ == "std.mem"@ {
                    Some("std.mem."@ + r)
                } else {
                    None
                },
                _ => None,
            }
        },
    }
}

/// Resolves a call of a built-in memory function to `std.mem.<name>`.
pub fn resolve_std_mem_call(imports: &Vec<(String, ImportBinding)>, callee: &str) -> (r: Option<String>)
    ensures
        r is Some <==> std_mem_call(imports@, callee@) is Some,
        r matches Some(s) ==> std_mem_call(imports@, callee@) == Some(s@),
{
    let (first, rest) = match split_once(callee, '.') {
        Some(parts) => parts,
        None => {
            return None;
        },
    };
    if str_eq(first.as_str(), "std") {
        let chars = chars_of(rest.as_str());
        let mem = chars_of("mem.");
        proof {
            reveal_strlit("mem.");
        }
        assert(mem@.len() == 4);
        if mem.len() <= chars.len() && crate::text::matches_at(&chars, &mem, 0) {
            let mut r = String::new();
            push_str(&mut r, "std.mem.");
            let name = string_of(&chars, 4, chars.len());
            push_str(&mut r, name.as_str());
            proof {
                reveal_strlit("mem.");
                assert(chars@.subrange(4, chars@.len() as int) =~= chars@.skip(4));
            }
            return Some(r);
        }
        proof {
            reveal_strlit("mem.");
        }
        return None;
    }
    match lookup(imports, first.as_str()) {
        Some(ImportBinding::Module(module)) => {
            if str_eq(module.as_str(), "std.mem") {
                let mut r = String::new();
                push_str(&mut r, "std.mem.");
                push_str(&mut r, rest.as_str());
                Some(r)
            } else {
                None
            }
        },
        _ => None,
    }
}

/// A name seen through the `use` bindings: `alias.rest` through an
/// imported module or type, a bare imported type by its target; anything
/// else unchanged.
pub open spec fn imported_name(imports: Seq<(String, ImportBinding)>, name: Seq<char>) -> Seq<char> {
    let (first, rest) = split_at_first(name, '.');
    match rest {
        Some(r) => match binding(imports, first) {
            Some(ImportBinding::Module(m)) => m@ + seq!['.'] + r,
            Some(ImportBinding::Type(t)) => t@ + seq!['.'] + r,
            _ => name,
        },
        None => match binding(imports, name) {
            Some(ImportBinding::Type(t)) => t@,
            _ => name,
        },
    }
}

/// Resolves a name through the `use` bindings.
pub fn resolve_imported(imports: &Vec<(String, ImportBinding)>, name: &str) -> (r: String)
    ensures
        r@ == imported_name(imports@, name@),
{
    match split_once(name, '.') {
        Some((first, rest)) => {
            match lookup(imports, first.as_str()) {
                Some(ImportBinding::Module(target)) | Some(ImportBinding::Type(target)) => {
                    let mut r = target.clone();
                    push_char(&mut r, '.');
                    push_str(&mut r, rest.as_str());
                    r
                },
                _ => name.to_owned(),
            }
        },
        None => match lookup(imports, name) {
            Some(ImportBinding::Type(target)) => target.clone(),
            _ => name.to_owned(),
        },
    }
}

/// `name` qualified as an enum variant: `Enum.Variant` when the part before
/// the last `.` is a known type.
pub open spec fn as_variant(types: Seq<String>, name: Seq<char>) -> Option<Seq<char>> {
    match split_at_last(name, '.') {
        Some((prefix, variant)) => if listed(types, prefix) {
            Some(prefix + seq!['.'] + variant)
        } else {
            None
        },
        None => None,
    }
}

fn variant_of(types: &Vec<String>, name: &str) -> (r: Option<String>)
    ensures
        r is Some <==> as_variant(types@, name@) is Some,
        r matches Some(s) ==> as_variant(types@, name@) == Some(s@),
{
    match rsplit_once(name, '.') {
        Some((prefix, variant)) => {
            if is_listed(types, prefix.as_str()) {
                let mut r = prefix;
                push_char(&mut r, '.');
                push_str(&mut r, variant.as_str());
                Some(r)
            } else {
                None
            }
        },
        None => None,
    }
}

/// The qualified type a constructor names: a type of the current module,
/// an enum variant of one, the same through imports, a prelude name; the
/// imported name otherwise.
pub open spec fn constructor_name(
    module: Seq<char>,
    imports: Seq<(String, ImportBinding)>,
    types: Seq<String>,
    name: Seq<char>,
) -> Seq<char> {
    let q = qualified(module, name);
    let resolved = imported_name(imports, name);
    if listed(types, q) {
        q
    } else if as_variant(types, q) is Some {
        as_variant(types, q)->0
    } else if listed(types, resolved) {
        resolved
    } else if as_variant(types, resolved) is Some {
        as_variant(types, resolved)->0
    } else if prelude_path(name) is Some {
        prelude_path(name)->0
    } else {
        resolved
    }
}

/// The part of `s` before its last `.`.
pub open spec fn before_last_dot(s: Seq<char>) -> Option<Seq<char>> {
    match split_at_last(s, '.') {
        Some(parts) => Some(parts.0),
        None => None,
    }
}

/// Qualifies a constructor callee (a struct name or an enum variant).
pub fn qualify_constructor(
    module: &str,
    imports: &Vec<(String, ImportBinding)>,
    types: &Vec<String>,
    name: &str,
) -> (r: String)
    ensures
        r@ == constructor_name(module@, imports@, types@, name@),
{
    let q = qualify(module, name);
    if is_listed(types, q.as_str()) {
        return q;
    }
    if let Some(v) = variant_of(types, q.as_str()) {
        return v;
    }
    let resolved = resolve_imported(imports, name);
    if is_listed(types, resolved.as_str()) {
        return resolved;
    }
    if let Some(v) = variant_of(types, resolved.as_str()) {
        return v;
    }
    if let Some(p) = resolve_prelude_path(name) {
        return p;
    }
    resolved
}

/// The qualified enum and variant that `Enum.Variant` names.
pub open spec fn enum_variant_name(
    module: Seq<char>,
    imports: Seq<(String, ImportBinding)>,
    types: Seq<String>,
    name: Seq<char>,
) -> Seq<char> {
    let q = qualified(module, name);
    let resolved = imported_name(imports, name);
    if as_variant(types, q) is Some {
        as_variant(types, q)->0
    } else if as_variant(types, resolved) is Some {
        as_variant(types, resolved)->0
    } else if prelude_path(name) is Some {
        prelude_path(name)->0
    } else {
        resolved
    }
}

/// Qualifies `Enum.Variant`, preferring an enum of the current module.
pub fn qualify_enum_variant(
    module: &str,
    imports: &Vec<(String, ImportBinding)>,
    types: &Vec<String>,
    name: &str,
) -> (r: String)
    ensures
        r@ == enum_variant_name(module@, imports@, types@, name@),
{
    let q = qualify(module, name);
    if let Some(v) = variant_of(types, q.as_str()) {
        return v;
    }
    let resolved = resolve_imported(imports, name);
    if let Some(v) = variant_of(types, resolved.as_str()) {
        return v;
    }
    if let Some(p) = resolve_prelude_path(name) {
        return p;
    }
    resolved
}

/// The qualified type an associated-function path's receiver names.
pub open spec fn associated_type_name(
    module: Seq<char>,
    imports: Seq<(String, ImportBinding)>,
    types: Seq<String>,
    name: Seq<char>,
) -> Seq<char> {
    let q = qualified(module, name);
    let resolved = imported_name(imports, name);
    if listed(types, q) {
        q
    } else if listed(types, resolved) {
        resolved
    } else if prelude_path(name) is Some {
        prelude_path(name)->0
    } else {
        resolved
    }
}

/// Qualifies the receiver type of an associated function (`Vec` in
/// `Vec<i32>::init`).
pub fn resolve_associated_type(
    module: &str,
    imports: &Vec<(String, ImportBinding)>,
    types: &Vec<String>,
    name: &str,
) -> (r: String)
    ensures
        r@ == associated_type_name(module@, imports@, types@, name@),
{
    let q = qualify(module, name);
    if is_listed(types, q.as_str()) {
        return q;
    }
    let resolved = resolve_imported(imports, name);
    if is_listed(types, resolved.as_str()) {
        return resolved;
    }
    if let Some(p) = resolve_prelude_path(name) {
        return p;
    }
    resolved
}

/// Whether a callee constructs a struct (`Type(...)`) or an enum variant
/// (`Enum.Variant(...)`), directly, through imports, within the current
/// module, or as a prelude enum.
pub open spec fn constructs(
    module: Seq<char>,
    callee: Seq<char>,
    imports: Seq<(String, ImportBinding)>,
    types: Seq<String>,
) -> bool {
    let resolved = imported_name(imports, callee);
    ||| listed(types, resolved)
    ||| listed(types, qualified(module, callee))
    ||| (before_last_dot(resolved) matches Some(p) && listed(types, p))
    ||| (before_last_dot(callee) matches Some(p) && listed(types, qualified(module, p)))
    ||| (prelude_path(callee) matches Some(pre) && (listed(types, pre) || (before_last_dot(pre) matches Some(p)
        && listed(types, p))))
}

/// Whether `callee` is a constructor.
pub fn is_constructor_target(
    module: &str,
    callee: &str,
    imports: &Vec<(String, ImportBinding)>,
    types: &Vec<String>,
) -> (r: bool)
    ensures
        r == constructs(module@, callee@, imports@, types@),
{
    let resolved = resolve_imported(imports, callee);
    let q = qualify(module, callee);
    if is_listed(types, resolved.as_str()) || is_listed(types, q.as_str()) {
        return true;
    }
    if let Some((prefix, _)) = rsplit_once(resolved.as_str(), '.') {
        if is_listed(types, prefix.as_str()) {
            return true;
        }
    }
    if let Some((prefix, _)) = rsplit_once(callee, '.') {
        let qp = qualify(module, prefix.as_str());
        if is_listed(types, qp.as_str()) {
            return true;
        }
    }
    if let Some(prelude) = resolve_prelude_path(callee) {
        if is_listed(types, prelude.as_str()) {
            return true;
        }
        if let Some((prefix, _)) = rsplit_once(prelude.as_str(), '.') {
            return is_listed(types, prefix.as_str());
        }
    }
    false
}

/// The function a call names: `alias.rest` through an imported module, a
/// local function of the module, an imported function, or a function of the
/// current module.
pub open spec fn callee_name(
    module: Seq<char>,
    locals: Seq<String>,
    imports: Seq<(String, ImportBinding)>,
    callee: Seq<char>,
) -> Seq<char> {
    let (first, rest) = split_at_first(callee, '.');
    match rest {
        Some(r) => match binding(imports, first) {
            Some(ImportBinding::Module(m)) => m@ + seq!['.'] + r,
            _ => callee,
        },
        None => if listed(locals, callee) {
            qualified(module, callee)
        } else {
            match binding(imports, callee) {
                Some(ImportBinding::Function(f)) => f@,
                _ => qualified(module, callee),
            }
        },
    }
}

/// Resolves the function a call names.
pub fn resolve_callee(
    module: &str,
    locals: &Vec<String>,
    imports: &Vec<(String, ImportBinding)>,
    callee: &str,
) -> (r: String)
    ensures
        r@ == callee_name(module@, locals@, imports@, callee@),
{
    if let Some((first, rest)) = split_once(callee, '.') {
        if let Some(ImportBinding::Module(target)) = lookup(imports, first.as_str()) {
            let mut r = target.clone();
            push_char(&mut r, '.');
            push_str(&mut r, rest.as_str());
            return r;
        }
        return callee.to_owned();
    }
    if is_listed(locals, callee) {
        return qualify(module, callee);
    }
    if let Some(ImportBinding::Function(function)) = lookup(imports, callee) {
        return function.clone();
    }
    qualify(module, callee)
}


// ---------------------------------------------------------------------------
// Modules of source files.
// ---------------------------------------------------------------------------

/// Parts joined with `.`.
pub open spec fn dot_joined(parts: Seq<Seq<char>>) -> Seq<char>
    decreases parts.len(),
{
    if parts.len() == 0 {
        seq![]
    } else if parts.len() == 1 {
        parts[0]
    } else {
        dot_joined(parts.drop_last()) + seq!['.'] + parts.last()
    }
}

/// Why a source file's module cannot be named.
#[derive(Debug, Clone, PartialEq, Eq)]
pub enum ModuleError {
    /// The file is not under the source root.
    OutsideRoot { path: String },
    /// The file's last component names no file.
    NoFileName,
}

impl ModuleError {
    /// The diagnostic text.
    pub fn message(&self) -> (r: String)
        ensures
            r@ == match *self {
                ModuleError::OutsideRoot { path } => "source `"@ + path@ + "` is outside the source root"@,
                ModuleError::NoFileName => "module file name must be valid UTF-8"@,
            },
    {
        let mut m = String::new();
        match self {
            ModuleError::OutsideRoot { path } => {
                push_str(&mut m, "source `");
                push_str(&mut m, path.as_str());
                push_str(&mut m, "` is outside the source root");
            },
            ModuleError::NoFileName => push_str(&mut m, "module file name must be valid UTF-8"),
        }
        m
    }
}

/// The components of `path` below `root`, when `root`'s components begin
/// them.
pub open spec fn below_root(root: Seq<char>, path: Seq<char>) -> Option<Seq<Seq<char>>> {
    let r = components(root);
    let p = components(path);
    if r.len() <= p.len() && p.take(r.len() as int) == r {
        Some(p.skip(r.len() as int))
    } else {
        None
    }
}

/// The module a source file defines: its directories below the source root
/// and its file stem, joined with `.`; empty for a file directly under the
/// root.
pub open spec fn module_of_file(root: Seq<char>, path: Seq<char>) -> Result<Seq<char>, ()> {
    match below_root(root, path) {
        None => Err(()),
        Some(rel) => if rel.len() <= 1 {
            Ok(seq![])
        } else if rel.last() == seq!['.', '.'] {
            Err(())
        } else {
            Ok(
                dot_joined(
                    rel.drop_last().push(crate::linker::stem_part(rel.last())),
                ),
            )
        },
    }
}

/// The package path a source file must declare: its directories below the
/// source root joined with `.`.
pub open spec fn package_of_file(root: Seq<char>, path: Seq<char>) -> Option<Seq<char>> {
    match below_root(root, path) {
        None => None,
        Some(rel) => Some(
            if rel.len() == 0 {
                seq![]
            } else {
                dot_joined(rel.drop_last())
            },
        ),
    }
}

fn components_below(root: &str, path: &str) -> (r: Option<Vec<String>>)
    ensures
        r is Some <==> below_root(root@, path@) is Some,
        r matches Some(v) ==> Some(texts(v@)) == below_root(root@, path@),
{
    let b = path_components(root);
    let p = path_components(path);
    assert(texts(b@).len() == b@.len());
    assert(texts(p@).len() == p@.len());
    if b.len() > p.len() {
        return None;
    }
    let mut i: usize = 0;
    while i < b.len()
        invariant
            i <= b.len() <= p.len(),
            texts(b@) == components(root@),
            texts(p@) == components(path@),
            forall|k: int| 0 <= k < i ==> texts(b@)[k] == texts(p@)[k],
        decreases b.len() - i,
    {
        if !str_eq(b[i].as_str(), p[i].as_str()) {
            proof {
                assert(texts(p@).take(b.len() as int)[i as int] != texts(b@)[i as int]);
                assert(texts(p@).take(b.len() as int) != texts(b@));
            }
            return None;
        }
        i = i + 1;
    }
    assert(texts(p@).take(b.len() as int) =~= texts(b@));
    let mut rest: Vec<String> = Vec::new();
    let mut k: usize = b.len();
    while k < p.len()
        invariant
            b.len() <= k <= p.len(),
            texts(rest@) == texts(p@).skip(b.len() as int).take(k - b.len()),
        decreases p.len() - k,
    {
        let ghost prev = texts(rest@);
        let ghost tail = texts(p@).skip(b.len() as int);
        rest.push(p[k].clone());
        proof {
            assert(tail.take(k + 1 - b.len()) =~= tail.take(k - b.len()).push(tail[k - b.len()]));
            assert(tail[k - b.len()] == p@[k as int]@);
            assert(texts(rest@) =~= prev.push(p@[k as int]@));
        }
        k = k + 1;
    }
    assert(texts(p@).skip(b.len() as int).take(p.len() - b.len()) =~= texts(p@).skip(b.len() as int));
    Some(rest)
}

pub(crate) fn join_dots(parts: &Vec<String>, count: usize) -> (r: String)
    requires
        count <= parts.len(),
    ensures
        r@ == dot_joined(texts(parts@).take(count as int)),
{
    let mut r = String::new();
    let mut i: usize = 0;
    while i < count
        invariant
            i <= count <= parts.len(),
            r@ == dot_joined(texts(parts@).take(i as int)),
        decreases count - i,
    {
        assert(texts(parts@).take(i + 1).drop_last() =~= texts(parts@).take(i as int));
        if i > 0 {
            push_char(&mut r, '.');
        }
        push_str(&mut r, parts[i].as_str());
        i = i + 1;
    }
    r
}

/// The module that the file `path` under `source_root` defines.
pub fn expected_module(source_root: &str, path: &str) -> (r: Result<String, ModuleError>)
    ensures
        r is Ok <==> module_of_file(source_root@, path@) is Ok,
        r matches Ok(m) ==> module_of_file(source_root@, path@) == Ok::<Seq<char>, ()>(m@),
        below_root(source_root@, path@) is None ==> r matches Err(ModuleError::OutsideRoot { .. }),
{
    let mut rel = match components_below(source_root, path) {
        Some(rel) => rel,
        None => {
            return Err(ModuleError::OutsideRoot { path: path.to_owned() });
        },
    };
    if rel.len() <= 1 {
        return Ok(String::new());
    }
    let ghost full = texts(rel@);
    let last = rel.pop().unwrap();
    let ghost parent = texts(rel@);
    assert(parent =~= full.drop_last());
    assert(last@ == full.last());
    let is_up = str_eq(last.as_str(), "..");
    proof {
        reveal_strlit("..");
        assert(".."@ =~= seq!['.', '.']);
    }
    if is_up {
        return Err(ModuleError::NoFileName);
    }
    let stem = stem_text(last.as_str());
    let n = rel.len();
    rel.push(stem);
    let r = join_dots(&rel, n + 1);
    assert(texts(rel@).take(n + 1) =~= parent.push(crate::linker::stem_part(last@)));
    assert(module_of_file(source_root@, path@) == Ok::<Seq<char>, ()>(
        dot_joined(full.drop_last().push(crate::linker::stem_part(full.last()))),
    ));
    Ok(r)
}

fn stem_text(name: &str) -> (r: String)
    ensures
        r@ == crate::linker::stem_part(name@),
{
    let chars = chars_of(name);
    proof {
        lemma_last_index(chars@, '.');
    }
    let end = match rfind_char(&chars, '.') {
        Some(i) => if i > 0 {
            i
        } else {
            chars.len()
        },
        None => chars.len(),
    };
    let r = string_of(&chars, 0, end);
    proof {
        assert(chars@.subrange(0, chars@.len() as int) =~= chars@);
        if let Some(i) = last_index(chars@, '.') {
            assert(chars@.subrange(0, i) =~= chars@.take(i));
        }
    }
    r
}

/// The package path that the file `path` under `source_root` must declare.
pub fn expected_package(source_root: &str, path: &str) -> (r: Result<String, ModuleError>)
    ensures
        r is Ok <==> package_of_file(source_root@, path@) is Some,
        r matches Ok(p) ==> package_of_file(source_root@, path@) == Some(p@),
{
    let rel = match components_below(source_root, path) {
        Some(rel) => rel,
        None => {
            return Err(ModuleError::OutsideRoot { path: path.to_owned() });
        },
    };
    if rel.len() == 0 {
        return Ok(String::new());
    }
    Ok(join_dots(&rel, rel.len() - 1))
}

/// How a file's `pkg` declaration disagrees with its directory.
#[derive(Debug, Clone, PartialEq, Eq)]
pub enum PackageDeclError {
    /// A file directly under the source root declares `pkg`.
    MustOmit,
    /// A file below the root declares no `pkg`.
    Missing { expected: String },
    /// The declared path is not the directory path.
    Mismatch { actual: String, expected: String },
}

/// The `pkg` rule: files directly under the source root declare none, the
/// others declare exactly their directory path.
pub open spec fn package_declaration_ok(expected: Seq<char>, declared: Option<Seq<Seq<char>>>) -> bool {
    match declared {
        None => expected.len() == 0,
        Some(segments) => expected.len() != 0 && dot_joined(segments) == expected,
    }
}

/// Checks a file's `pkg` declaration (its segments, if it has one) against
/// the package path its directory gives.
pub fn validate_package(expected: &str, declared: Option<&Vec<String>>) -> (r: Result<(), PackageDeclError>)
    ensures
        r is Ok <==> package_declaration_ok(
            expected@,
            match declared {
                Some(d) => Some(texts(d@)),
                None => None,
            },
        ),
        declared is Some && expected@.len() == 0 ==> r == Err::<(), PackageDeclError>(PackageDeclError::MustOmit),
        declared is None && expected@.len() != 0 ==> r matches Err(PackageDeclError::Missing { .. }),
{
    let empty = expected.unicode_len() == 0;
    match declared {
        None => if empty {
            Ok(())
        } else {
            Err(PackageDeclError::Missing { expected: expected.to_owned() })
        },
        Some(segments) => {
            if empty {
                return Err(PackageDeclError::MustOmit);
            }
            let actual = join_dots(segments, segments.len());
            assert(texts(segments@).take(segments@.len() as int) =~= texts(segments@));
            if str_eq(actual.as_str(), expected) {
                Ok(())
            } else {
                Err(PackageDeclError::Mismatch { actual, expected: expected.to_owned() })
            }
        },
    }
}

} // verus!
