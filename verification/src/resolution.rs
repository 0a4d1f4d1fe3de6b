//! Name resolution inside function bodies: every type a body writes is
//! qualified through the module's `use` bindings and checked for
//! visibility, and every call is settled to the function, constructor,
//! associated function or built-in it names.
//!
//! Resolution reads a body and gives back the resolved body; the first
//! fault met in source order is the answer when there is one.
use vstd::prelude::*;

use crate::definitions::{
    definition_views, find_definition, find_in, resolve_type_name, type_name_target, Definition,
};
use crate::ir::{BinaryOperator, UnaryOperator};
use crate::modules::{
    associated_type_name, binding, callee_name, constructor_name, constructs, enum_variant_name,
    imported_name, is_constructor_target, lookup, prelude_path, qualified,
    qualify, qualify_constructor, qualify_enum_variant, resolve_associated_type, resolve_callee,
    resolve_imported, resolve_prelude_path, resolve_std_mem_call, rsplit_once, split_at_last,
    split_once, std_mem_call, ImportBinding,
};
use crate::names::split_at_first;
use crate::templates::{Signature, SignatureParam, TypeParamDecl, TypeRef};
use crate::text::{chars_of, find_char, has_char, lemma_first_index, push_str, str_eq, string_of};

verus! {

/// A definition of a table, as text: qualified name, name, module, public.
pub type DefinitionView = (Seq<char>, Seq<char>, Seq<char>, bool);

/// The definition named `name` in a table, if any.
pub open spec fn decl(table: Seq<Definition>, name: Seq<char>) -> Option<DefinitionView> {
    find_definition(definition_views(table), name)
}

/// The qualified names of a table, in order.
pub open spec fn names_of(table: Seq<Definition>) -> Seq<String> {
    table.map_values(|d: Definition| d.qualified)
}

/// Code of module `module` may use the definition.
pub open spec fn visible_from(d: DefinitionView, module: Seq<char>) -> bool {
    let (_, _, owner, public) = d;
    owner == module || public
}

/// The qualified names of a table, in order.
pub fn decl_names(table: &Vec<Definition>) -> (r: Vec<String>)
    ensures
        r@ == names_of(table@),
{
    let mut out: Vec<String> = Vec::new();
    let mut i: usize = 0;
    while i < table.len()
        invariant
            i <= table.len(),
            out@ == names_of(table@.take(i as int)),
        decreases table.len() - i,
    {
        out.push(table[i].qualified.clone());
        assert(table@.take(i + 1) =~= table@.take(i as int).push(table@[i as int]));
        i = i + 1;
        assert(out@ =~= names_of(table@.take(i as int)));
    }
    assert(table@.take(table.len() as int) =~= table@);
    out
}

/// Why a body does not resolve.
#[derive(Debug, Clone, PartialEq, Eq)]
pub enum ResolveFault {
    /// A type of another module that it does not make public.
    PrivateType { name: String },
    /// A function of another module that it does not make public.
    PrivateFunction { name: String },
    /// A call that names no function.
    UnknownFunction { callee: String },
    /// A built-in (`print`, `println`, `length`) called with type arguments.
    ExplicitTypeArguments { callee: String },
    /// `string.from_bytes` called with type arguments.
    FromBytesTypeArguments,
    /// A type parameter bound that names no trait.
    UnknownTrait { bound: String },
}

/// A resolution fault with its names as character sequences.
pub enum FaultView {
    PrivateType(Seq<char>),
    PrivateFunction(Seq<char>),
    UnknownFunction(Seq<char>),
    ExplicitTypeArguments(Seq<char>),
    FromBytesTypeArguments,
    UnknownTrait(Seq<char>),
}

impl View for ResolveFault {
    type V = FaultView;

    open spec fn view(&self) -> FaultView {
        match self {
            ResolveFault::PrivateType { name } => FaultView::PrivateType(name@),
            ResolveFault::PrivateFunction { name } => FaultView::PrivateFunction(name@),
            ResolveFault::UnknownFunction { callee } => FaultView::UnknownFunction(callee@),
            ResolveFault::ExplicitTypeArguments { callee } => FaultView::ExplicitTypeArguments(callee@),
            ResolveFault::FromBytesTypeArguments => FaultView::FromBytesTypeArguments,
            ResolveFault::UnknownTrait { bound } => FaultView::UnknownTrait(bound@),
        }
    }
}

/// The text of a resolution fault.
pub open spec fn fault_text(f: FaultView) -> Seq<char> {
    match f {
        FaultView::PrivateType(name) => "type `"@ + name + "` is private"@,
        FaultView::PrivateFunction(name) => "function `"@ + name + "` is private"@,
        FaultView::UnknownFunction(callee) => "unknown function `"@ + callee + "`"@,
        FaultView::ExplicitTypeArguments(callee) => "`"@ + callee + "` does not accept explicit type arguments"@,
        FaultView::FromBytesTypeArguments => "`string.from_bytes` does not accept type arguments"@,
        FaultView::UnknownTrait(bound) => "unknown trait `"@ + bound + "` in type parameter bound"@,
    }
}

impl ResolveFault {
    /// The diagnostic text.
    pub fn message(&self) -> (r: String)
        ensures
            r@ == fault_text(self@),
    {
        let mut out = String::new();
        match self {
            ResolveFault::PrivateType { name } => {
                push_str(&mut out, "type `");
                push_str(&mut out, name.as_str());
                push_str(&mut out, "` is private");
            },
            ResolveFault::PrivateFunction { name } => {
                push_str(&mut out, "function `");
                push_str(&mut out, name.as_str());
                push_str(&mut out, "` is private");
            },
            ResolveFault::UnknownFunction { callee } => {
                push_str(&mut out, "unknown function `");
                push_str(&mut out, callee.as_str());
                push_str(&mut out, "`");
            },
            ResolveFault::ExplicitTypeArguments { callee } => {
                push_str(&mut out, "`");
                push_str(&mut out, callee.as_str());
                push_str(&mut out, "` does not accept explicit type arguments");
            },
            ResolveFault::FromBytesTypeArguments => {
                push_str(&mut out, "`string.from_bytes` does not accept type arguments");
            },
            ResolveFault::UnknownTrait { bound } => {
                push_str(&mut out, "unknown trait `");
                push_str(&mut out, bound.as_str());
                push_str(&mut out, "` in type parameter bound");
            },
        }
        out
    }
}

/// What a resolution works in: the module of the body, its local function
/// names, its `use` bindings, the program's functions and types, and the
/// names of those types.
#[derive(Debug)]
pub struct Scope {
    pub module: String,
    pub locals: Vec<String>,
    pub imports: Vec<(String, ImportBinding)>,
    pub functions: Vec<Definition>,
    pub types: Vec<Definition>,
    pub type_names: Vec<String>,
}

impl Scope {
    /// The list of type names is that of the type table.
    pub open spec fn wf(&self) -> bool {
        self.type_names@ == names_of(self.types@)
    }

    /// A scope over the given tables.
    pub fn new(
        module: String,
        locals: Vec<String>,
        imports: Vec<(String, ImportBinding)>,
        functions: Vec<Definition>,
        types: Vec<Definition>,
    ) -> (r: Scope)
        ensures
            r.wf(),
            r.module == module,
            r.locals == locals,
            r.imports == imports,
            r.functions == functions,
            r.types == types,
    {
        let type_names = decl_names(&types);
        Scope { module, locals, imports, functions, types, type_names }
    }
}

/// The type a written type name stands for: a type of the current module,
/// one reached through the imports, one named in full, or a prelude type;
/// `None` for a primitive type, a type parameter or an unknown name, which
/// stay as written.
pub open spec fn type_target(s: Scope, name: Seq<char>) -> Option<Seq<char>> {
    let q = qualified(s.module@, name);
    let imp = imported_name(s.imports@, name);
    if decl(s.types@, q) is Some {
        Some(q)
    } else if decl(s.types@, imp) is Some {
        Some(imp)
    } else if decl(s.types@, name) is Some {
        Some(name)
    } else {
        match prelude_path(name) {
            Some(p) => if decl(s.types@, p) is Some {
                Some(p)
            } else {
                None
            },
            None => None,
        }
    }
}

/// The fault of naming the type `target`, if the current module may not
/// use it.
pub open spec fn type_name_fault(s: Scope, target: Seq<char>) -> Option<FaultView> {
    match decl(s.types@, target) {
        Some(d) => if visible_from(d, s.module@) {
            None
        } else {
            Some(FaultView::PrivateType(target))
        },
        None => None,
    }
}

/// The first fault of a written type: in its arguments, left to right,
/// then in its own name.
pub open spec fn type_fault(s: Scope, t: TypeRef) -> Option<FaultView>
    decreases t,
{
    match t {
        TypeRef::Name { name, arguments } => match type_list_fault(s, arguments@, arguments@.len() as int) {
            Some(f) => Some(f),
            None => match type_target(s, name@) {
                Some(x) => type_name_fault(s, x),
                None => None,
            },
        },
        TypeRef::Ptr { pointee, .. } => type_fault(s, *pointee),
        TypeRef::Slice { element, .. } => type_fault(s, *element),
        TypeRef::Array { element, .. } => type_fault(s, *element),
    }
}

/// The first fault among the first `n` types of `ts`.
pub open spec fn type_list_fault(s: Scope, ts: Seq<TypeRef>, n: int) -> Option<FaultView>
    decreases ts, n,
{
    if n <= 0 || n > ts.len() {
        None
    } else {
        match type_list_fault(s, ts, n - 1) {
            Some(f) => Some(f),
            None => type_fault(s, ts[n - 1]),
        }
    }
}

/// `r` is `t` with every type name replaced by the type it stands for.
pub open spec fn type_resolved(s: Scope, t: TypeRef, r: TypeRef) -> bool
    decreases t,
{
    match t {
        TypeRef::Name { name, arguments } => r matches TypeRef::Name { name: rn, arguments: ra } && rn@
            == (match type_target(s, name@) {
            Some(x) => x,
            None => name@,
        }) && ra@.len() == arguments@.len() && type_list_resolved(
            s,
            arguments@,
            ra@,
            arguments@.len() as int,
        ),
        TypeRef::Ptr { pointee, mutable } => r matches TypeRef::Ptr { pointee: rp, mutable: rm } && rm
            == mutable && type_resolved(s, *pointee, *rp),
        TypeRef::Slice { element, mutable } => r matches TypeRef::Slice { element: re, mutable: rm } && rm
            == mutable && type_resolved(s, *element, *re),
        TypeRef::Array { element, length } => r matches TypeRef::Array { element: re, length: rl } && rl
            == length && type_resolved(s, *element, *re),
    }
}

/// The first `n` types of `rs` resolve those of `ts`.
pub open spec fn type_list_resolved(s: Scope, ts: Seq<TypeRef>, rs: Seq<TypeRef>, n: int) -> bool
    decreases ts, n,
{
    if n <= 0 || n > ts.len() {
        true
    } else {
        type_list_resolved(s, ts, rs, n - 1) && type_resolved(s, ts[n - 1], rs[n - 1])
    }
}

proof fn lemma_type_list_step(s: Scope, ts: Seq<TypeRef>, rs: Seq<TypeRef>, rs2: Seq<TypeRef>, n: int)
    requires
        0 <= n <= ts.len(),
        n <= rs.len(),
        n <= rs2.len(),
        forall|j: int| 0 <= j < n ==> rs[j] == rs2[j],
        type_list_resolved(s, ts, rs, n),
    ensures
        type_list_resolved(s, ts, rs2, n),
    decreases n,
{
    if n > 0 {
        lemma_type_list_step(s, ts, rs, rs2, n - 1);
    }
}

/// The type a written type name stands for.
fn target_of(s: &Scope, name: &str) -> (r: Option<String>)
    requires
        s.wf(),
    ensures
        r is Some <==> type_target(*s, name@) is Some,
        r matches Some(x) ==> type_target(*s, name@) == Some(x@),
{
    let q = qualify(s.module.as_str(), name);
    if find_in(&s.types, q.as_str()).is_some() {
        return Some(q);
    }
    let imp = resolve_imported(&s.imports, name);
    if find_in(&s.types, imp.as_str()).is_some() {
        return Some(imp);
    }
    if find_in(&s.types, name).is_some() {
        return Some(name.to_owned());
    }
    if let Some(p) = resolve_prelude_path(name) {
        if find_in(&s.types, p.as_str()).is_some() {
            return Some(p);
        }
    }
    None
}

/// Checks that the current module may use the type `target`.
fn check_type_visible(s: &Scope, target: &str) -> (r: Result<(), ResolveFault>)
    ensures
        r is Ok <==> type_name_fault(*s, target@) is None,
        r matches Err(f) ==> type_name_fault(*s, target@) == Some(f@),
{
    match find_in(&s.types, target) {
        Some(d) => {
            if str_eq(d.module.as_str(), s.module.as_str()) || d.public {
                Ok(())
            } else {
                Err(ResolveFault::PrivateType { name: target.to_owned() })
            }
        },
        None => Ok(()),
    }
}

/// Resolves a written type: each name is qualified to the type it stands
/// for, and a type of another module must be public.
pub fn resolve_type_ref(s: &Scope, t: &TypeRef) -> (r: Result<TypeRef, ResolveFault>)
    requires
        s.wf(),
    ensures
        r is Ok <==> type_fault(*s, *t) is None,
        r matches Ok(x) ==> type_resolved(*s, *t, x),
        r matches Err(f) ==> type_fault(*s, *t) == Some(f@),
    decreases *t,
{
    match t {
        TypeRef::Name { name, arguments } => {
            let mut out: Vec<TypeRef> = Vec::new();
            let mut i: usize = 0;
            while i < arguments.len()
                invariant
                    s.wf(),
                    i <= arguments@.len(),
                    *t == (TypeRef::Name { name: *name, arguments: *arguments }),
                    out@.len() == i,
                    type_list_fault(*s, arguments@, i as int) is None,
                    type_list_resolved(*s, arguments@, out@, i as int),
                decreases arguments@.len() - i,
            {
                proof {
                    assert(decreases_to!(*t => t->Name_arguments));
                    assert(decreases_to!(*arguments => arguments@));
                    assert(decreases_to!(arguments@ => arguments@[i as int]));
                    assert(decreases_to!(*t => arguments@[i as int]));
                }
                let a = resolve_type_ref(s, &arguments[i]);
                match a {
                    Ok(x) => {
                        let ghost before = out@;
                        out.push(x);
                        proof {
                            lemma_type_list_step(*s, arguments@, before, out@, i as int);
                        }
                    },
                    Err(f) => {
                        assert(type_list_fault(*s, arguments@, i + 1) == Some(f@));
                        proof {
                            lemma_type_list_fault_prefix(*s, arguments@, i + 1, arguments@.len() as int);
                        }
                        return Err(f);
                    },
                }
                i = i + 1;
            }
            let resolved = match target_of(s, name.as_str()) {
                Some(x) => {
                    match check_type_visible(s, x.as_str()) {
                        Ok(()) => {},
                        Err(f) => {
                            return Err(f);
                        },
                    }
                    x
                },
                None => name.clone(),
            };
            Ok(TypeRef::Name { name: resolved, arguments: out })
        },
        TypeRef::Ptr { pointee, mutable } => {
            let p = resolve_type_ref(s, pointee)?;
            Ok(TypeRef::Ptr { pointee: Box::new(p), mutable: *mutable })
        },
        TypeRef::Slice { element, mutable } => {
            let e = resolve_type_ref(s, element)?;
            Ok(TypeRef::Slice { element: Box::new(e), mutable: *mutable })
        },
        TypeRef::Array { element, length } => {
            let e = resolve_type_ref(s, element)?;
            Ok(TypeRef::Array { element: Box::new(e), length: *length })
        },
    }
}

/// A fault among the first `k` types stays the first among the first `n`.
proof fn lemma_type_list_fault_prefix(s: Scope, ts: Seq<TypeRef>, k: int, n: int)
    requires
        0 < k <= n <= ts.len(),
        type_list_fault(s, ts, k) is Some,
    ensures
        type_list_fault(s, ts, n) == type_list_fault(s, ts, k),
    decreases n - k,
{
    if n > k {
        lemma_type_list_fault_prefix(s, ts, k, n - 1);
    }
}

// ---------------------------------------------------------------------------
// Calls.
// ---------------------------------------------------------------------------

/// Where the last `::` of `s` starts, looking at its first `n` characters.
pub open spec fn last_path_sep(s: Seq<char>, n: int) -> Option<int>
    decreases n,
{
    if n < 2 || n > s.len() {
        None
    } else if s[n - 2] == ':' && s[n - 1] == ':' {
        Some(n - 2)
    } else {
        last_path_sep(s, n - 1)
    }
}

/// `s` cut at its last `::`: the type part and the function name.
pub open spec fn path_parts(s: Seq<char>) -> Option<(Seq<char>, Seq<char>)> {
    match last_path_sep(s, s.len() as int) {
        Some(i) => Some((s.take(i), s.skip(i + 2))),
        None => None,
    }
}

/// Cuts `s` at its last `::`.
fn split_path(s: &str) -> (r: Option<(String, String)>)
    ensures
        r is Some <==> path_parts(s@) is Some,
        r matches Some(p) ==> path_parts(s@) == Some((p.0@, p.1@)),
{
    let chars = chars_of(s);
    let len = chars.len();
    let mut n = len;
    while n >= 2
        invariant
            n <= len,
            len == chars@.len(),
            chars@ == s@,
            last_path_sep(s@, len as int) == last_path_sep(s@, n as int),
        decreases n,
    {
        if chars[n - 2] == ':' && chars[n - 1] == ':' {
            let a = string_of(&chars, 0, n - 2);
            let b = string_of(&chars, n, len);
            assert(chars@.subrange(0, n - 2) =~= s@.take(n - 2));
            assert(chars@.subrange(n as int, len as int) =~= s@.skip(n as int));
            return Some((a, b));
        }
        n = n - 1;
    }
    None
}

/// The functions of `std.mem` that the compiler provides.
pub open spec fn std_mem_intrinsic(name: Seq<char>) -> bool {
    ||| name == "alloc"@
    ||| name == "free"@
    ||| name == "create"@
    ||| name == "destroy"@
    ||| name == "size_of"@
    ||| name == "align_of"@
    ||| name == "copy"@
    ||| name == "is_valid_utf8"@
    ||| name == "view"@
    ||| name == "view_const"@
    ||| name == "cast_ptr"@
    ||| name == "cast_const_ptr"@
}

fn is_std_mem_intrinsic(name: &str) -> (r: bool)
    ensures
        r == std_mem_intrinsic(name@),
{
    str_eq(name, "alloc") || str_eq(name, "free") || str_eq(name, "create") || str_eq(name, "destroy")
        || str_eq(name, "size_of") || str_eq(name, "align_of") || str_eq(name, "copy") || str_eq(
        name,
        "is_valid_utf8",
    ) || str_eq(name, "view") || str_eq(name, "view_const") || str_eq(name, "cast_ptr") || str_eq(
        name,
        "cast_const_ptr",
    )
}

/// The built-ins that print or measure, which take no type arguments.
pub open spec fn output_builtin(callee: Seq<char>) -> bool {
    callee == "print"@ || callee == "println"@ || callee == "length"@
}

/// What a call names, in the order the rules are tried: an output
/// built-in; a `std.mem` function, which must be one the compiler
/// provides; `Type::function`; a struct or enum-variant constructor; a
/// method call on a value (`value.method`, whose first part is no import
/// and which is no known function); `string.from_bytes`; `.slice` and
/// `.bytes` on a local; otherwise a function, which must exist and be
/// visible.
pub open spec fn call_target(s: Scope, callee: Seq<char>, typed: bool) -> Result<Seq<char>, FaultView> {
    let module = s.module@;
    let imports = s.imports@;
    let types = s.type_names@;
    if output_builtin(callee) {
        if typed {
            Err(FaultView::ExplicitTypeArguments(callee))
        } else {
            Ok(callee)
        }
    } else if std_mem_call(imports, callee) is Some {
        let c = std_mem_call(imports, callee)->0;
        if std_mem_intrinsic(c.skip(8)) {
            Ok(c)
        } else {
            Err(FaultView::UnknownFunction(callee))
        }
    } else if path_parts(callee) is Some {
        let (tp, m) = path_parts(callee)->0;
        Ok(associated_type_name(module, imports, types, tp) + "::"@ + m)
    } else if constructs(module, callee, imports, types) {
        Ok(constructor_name(module, imports, types, callee))
    } else if split_at_first(callee, '.').1 is Some && binding(imports, split_at_first(callee, '.').0) is None
        && decl(s.functions@, callee) is None {
        Ok(callee)
    } else if callee == "string.from_bytes"@ {
        if typed {
            Err(FaultView::FromBytesTypeArguments)
        } else {
            Ok(callee)
        }
    } else if view_method_call(imports, callee) {
        Ok(callee)
    } else {
        let resolved = callee_name(module, s.locals@, imports, callee);
        match decl(s.functions@, resolved) {
            None => Err(FaultView::UnknownFunction(callee)),
            Some(d) => if visible_from(d, module) {
                Ok(resolved)
            } else {
                Err(FaultView::PrivateFunction(resolved))
            },
        }
    }
}

/// `local.slice` or `local.bytes`: a method of a slice or string held in
/// a local, not a module path.
pub open spec fn view_method_call(imports: Seq<(String, ImportBinding)>, callee: Seq<char>) -> bool {
    match split_at_last(callee, '.') {
        Some((base, method)) => (method == "slice"@ || method == "bytes"@) && !has_char(base, '.')
            && binding(imports, base) is None,
        None => false,
    }
}

fn char_free(s: &str, c: char) -> (r: bool)
    ensures
        r == !has_char(s@, c),
{
    let chars = chars_of(s);
    proof {
        lemma_first_index(chars@, c);
    }
    find_char(&chars, c).is_none()
}

/// Settles what a call names; `typed` tells whether the call gives type
/// arguments.
pub fn resolve_call(s: &Scope, callee: &str, typed: bool) -> (r: Result<String, ResolveFault>)
    requires
        s.wf(),
    ensures
        r is Ok <==> call_target(*s, callee@, typed) is Ok,
        r matches Ok(x) ==> call_target(*s, callee@, typed) == Ok::<Seq<char>, FaultView>(x@),
        r matches Err(f) ==> call_target(*s, callee@, typed) == Err::<Seq<char>, FaultView>(f@),
{
    let module = s.module.as_str();
    if str_eq(callee, "print") || str_eq(callee, "println") || str_eq(callee, "length") {
        if typed {
            return Err(ResolveFault::ExplicitTypeArguments { callee: callee.to_owned() });
        }
        return Ok(callee.to_owned());
    }
    if let Some(c) = resolve_std_mem_call(&s.imports, callee) {
        proof {
            reveal_strlit("std.mem.");
        }
        let chars = chars_of(c.as_str());
        let name = string_of(&chars, 8, chars.len());
        assert(chars@.subrange(8, chars@.len() as int) =~= c@.skip(8));
        if !is_std_mem_intrinsic(name.as_str()) {
            return Err(ResolveFault::UnknownFunction { callee: callee.to_owned() });
        }
        return Ok(c);
    }
    if let Some((type_part, method)) = split_path(callee) {
        let mut r = resolve_associated_type(module, &s.imports, &s.type_names, type_part.as_str());
        push_str(&mut r, "::");
        push_str(&mut r, method.as_str());
        return Ok(r);
    }
    if is_constructor_target(module, callee, &s.imports, &s.type_names) {
        return Ok(qualify_constructor(module, &s.imports, &s.type_names, callee));
    }
    if let Some((first, _)) = split_once(callee, '.') {
        if lookup(&s.imports, first.as_str()).is_none() && find_in(&s.functions, callee).is_none() {
            return Ok(callee.to_owned());
        }
    }
    if str_eq(callee, "string.from_bytes") {
        if typed {
            return Err(ResolveFault::FromBytesTypeArguments);
        }
        return Ok(callee.to_owned());
    }
    if let Some((base, method)) = rsplit_once(callee, '.') {
        if (str_eq(method.as_str(), "slice") || str_eq(method.as_str(), "bytes")) && char_free(
            base.as_str(),
            '.',
        ) && lookup(&s.imports, base.as_str()).is_none() {
            return Ok(callee.to_owned());
        }
    }
    let resolved = resolve_callee(module, &s.locals, &s.imports, callee);
    match find_in(&s.functions, resolved.as_str()) {
        None => Err(ResolveFault::UnknownFunction { callee: callee.to_owned() }),
        Some(d) => {
            if str_eq(d.module.as_str(), module) || d.public {
                Ok(resolved)
            } else {
                Err(ResolveFault::PrivateFunction { name: resolved })
            }
        },
    }
}

// ---------------------------------------------------------------------------
// Expressions.
// ---------------------------------------------------------------------------

/// An expression of a function body, as far as resolution reads it.
#[derive(Debug)]
pub enum SyntaxExpr {
    Integer(u64),
    Character(char),
    Boolean(bool),
    Text(String),
    Name(String),
    Array(Vec<SyntaxExpr>),
    RepeatArray { value: Box<SyntaxExpr>, length: u64 },
    Unary { operator: UnaryOperator, operand: Box<SyntaxExpr> },
    AddressOf(Box<SyntaxExpr>),
    Deref(Box<SyntaxExpr>),
    Cast { value: Box<SyntaxExpr>, ty: TypeRef },
    Index { array: Box<SyntaxExpr>, index: Box<SyntaxExpr> },
    Binary { operator: BinaryOperator, left: Box<SyntaxExpr>, right: Box<SyntaxExpr> },
    Call { callee: String, type_arguments: Vec<TypeRef>, arguments: Vec<SyntaxExpr> },
    Field { base: Box<SyntaxExpr>, field: String },
    Match { value: Box<SyntaxExpr>, arms: Vec<MatchArm> },
}

/// The pattern of a `match` arm.
#[derive(Debug)]
pub enum MatchPattern {
    /// `Enum.Variant<T>(a, b)`.
    Enum { name: String, type_arguments: Vec<TypeRef>, bindings: Vec<String> },
    /// A name that binds the whole value.
    Binding(String),
    /// `_`.
    Wildcard,
}

/// One arm of a `match`.
#[derive(Debug)]
pub struct MatchArm {
    pub pattern: MatchPattern,
    pub body: SyntaxExpr,
}

/// The first fault of an expression, in source order: operands left to
/// right; a call's arguments, then its type arguments, then what it names;
/// a match's value, then each arm's pattern types and body.
pub open spec fn expr_fault(s: Scope, e: SyntaxExpr) -> Option<FaultView>
    decreases e,
{
    match e {
        SyntaxExpr::Array(values) => expr_list_fault(s, values@, values@.len() as int),
        SyntaxExpr::RepeatArray { value, .. } => expr_fault(s, *value),
        SyntaxExpr::Unary { operand, .. } => expr_fault(s, *operand),
        SyntaxExpr::AddressOf(operand) => expr_fault(s, *operand),
        SyntaxExpr::Deref(operand) => expr_fault(s, *operand),
        SyntaxExpr::Cast { value, ty } => match expr_fault(s, *value) {
            Some(f) => Some(f),
            None => type_fault(s, ty),
        },
        SyntaxExpr::Index { array, index } => match expr_fault(s, *array) {
            Some(f) => Some(f),
            None => expr_fault(s, *index),
        },
        SyntaxExpr::Binary { left, right, .. } => match expr_fault(s, *left) {
            Some(f) => Some(f),
            None => expr_fault(s, *right),
        },
        SyntaxExpr::Call { callee, type_arguments, arguments } => match expr_list_fault(
            s,
            arguments@,
            arguments@.len() as int,
        ) {
            Some(f) => Some(f),
            None => match type_list_fault(s, type_arguments@, type_arguments@.len() as int) {
                Some(f) => Some(f),
                None => match call_target(s, callee@, type_arguments@.len() > 0) {
                    Ok(_) => None,
                    Err(f) => Some(f),
                },
            },
        },
        SyntaxExpr::Field { base, .. } => expr_fault(s, *base),
        SyntaxExpr::Match { value, arms } => match expr_fault(s, *value) {
            Some(f) => Some(f),
            None => arm_list_fault(s, arms@, arms@.len() as int),
        },
        _ => None,
    }
}

/// The first fault among the first `n` expressions of `es`.
pub open spec fn expr_list_fault(s: Scope, es: Seq<SyntaxExpr>, n: int) -> Option<FaultView>
    decreases es, n,
{
    if n <= 0 || n > es.len() {
        None
    } else {
        match expr_list_fault(s, es, n - 1) {
            Some(f) => Some(f),
            None => expr_fault(s, es[n - 1]),
        }
    }
}

/// The first fault among the first `n` arms of `arms`.
pub open spec fn arm_list_fault(s: Scope, arms: Seq<MatchArm>, n: int) -> Option<FaultView>
    decreases arms, n,
{
    if n <= 0 || n > arms.len() {
        None
    } else {
        match arm_list_fault(s, arms, n - 1) {
            Some(f) => Some(f),
            None => match arms[n - 1].pattern {
                MatchPattern::Enum { type_arguments, .. } => match type_list_fault(
                    s,
                    type_arguments@,
                    type_arguments@.len() as int,
                ) {
                    Some(f) => Some(f),
                    None => expr_fault(s, arms[n - 1].body),
                },
                _ => expr_fault(s, arms[n - 1].body),
            },
        }
    }
}

/// `r` is `e` with its types resolved, its calls naming what they call and
/// its enum patterns qualified.
pub open spec fn expr_resolved(s: Scope, e: SyntaxExpr, r: SyntaxExpr) -> bool
    decreases e,
{
    match e {
        SyntaxExpr::Array(values) => r matches SyntaxExpr::Array(rv) && rv@.len() == values@.len()
            && expr_list_resolved(s, values@, rv@, values@.len() as int),
        SyntaxExpr::RepeatArray { value, length } => r matches SyntaxExpr::RepeatArray {
            value: rv,
            length: rl,
        } && rl == length && expr_resolved(s, *value, *rv),
        SyntaxExpr::Unary { operator, operand } => r matches SyntaxExpr::Unary { operator: ro, operand: rv }
            && ro == operator && expr_resolved(s, *operand, *rv),
        SyntaxExpr::AddressOf(operand) => r matches SyntaxExpr::AddressOf(rv) && expr_resolved(
            s,
            *operand,
            *rv,
        ),
        SyntaxExpr::Deref(operand) => r matches SyntaxExpr::Deref(rv) && expr_resolved(s, *operand, *rv),
        SyntaxExpr::Cast { value, ty } => r matches SyntaxExpr::Cast { value: rv, ty: rt } && expr_resolved(
            s,
            *value,
            *rv,
        ) && type_resolved(s, ty, rt),
        SyntaxExpr::Index { array, index } => r matches SyntaxExpr::Index { array: ra, index: ri }
            && expr_resolved(s, *array, *ra) && expr_resolved(s, *index, *ri),
        SyntaxExpr::Binary { operator, left, right } => r matches SyntaxExpr::Binary {
            operator: ro,
            left: rl,
            right: rr,
        } && ro == operator && expr_resolved(s, *left, *rl) && expr_resolved(s, *right, *rr),
        SyntaxExpr::Call { callee, type_arguments, arguments } => r matches SyntaxExpr::Call {
            callee: rc,
            type_arguments: rt,
            arguments: ra,
        } && call_target(s, callee@, type_arguments@.len() > 0) == Ok::<Seq<char>, FaultView>(rc@)
            && rt@.len() == type_arguments@.len() && type_list_resolved(
            s,
            type_arguments@,
            rt@,
            type_arguments@.len() as int,
        ) && ra@.len() == arguments@.len() && expr_list_resolved(
            s,
            arguments@,
            ra@,
            arguments@.len() as int,
        ),
        SyntaxExpr::Field { base, field } => r matches SyntaxExpr::Field { base: rb, field: rf } && rf@
            == field@ && expr_resolved(s, *base, *rb),
        SyntaxExpr::Match { value, arms } => r matches SyntaxExpr::Match { value: rv, arms: ra }
            && expr_resolved(s, *value, *rv) && ra@.len() == arms@.len() && arm_list_resolved(
            s,
            arms@,
            ra@,
            arms@.len() as int,
        ),
        _ => r == e,
    }
}

/// The first `n` expressions of `rs` resolve those of `es`.
pub open spec fn expr_list_resolved(s: Scope, es: Seq<SyntaxExpr>, rs: Seq<SyntaxExpr>, n: int) -> bool
    decreases es, n,
{
    if n <= 0 || n > es.len() {
        true
    } else {
        expr_list_resolved(s, es, rs, n - 1) && expr_resolved(s, es[n - 1], rs[n - 1])
    }
}

/// The first `n` arms of `rs` resolve those of `arms`: an enum pattern's
/// variant is qualified and its type arguments resolved, and each body is
/// resolved.
pub open spec fn arm_list_resolved(s: Scope, arms: Seq<MatchArm>, rs: Seq<MatchArm>, n: int) -> bool
    decreases arms, n,
{
    if n <= 0 || n > arms.len() {
        true
    } else {
        &&& arm_list_resolved(s, arms, rs, n - 1)
        &&& match arms[n - 1].pattern {
            MatchPattern::Enum { name, type_arguments, bindings } => rs[n - 1].pattern matches MatchPattern::Enum {
                name: rn,
                type_arguments: rt,
                bindings: rb,
            } && rn@ == enum_variant_name(s.module@, s.imports@, s.type_names@, name@) && rb@ == bindings@
                && rt@.len() == type_arguments@.len() && type_list_resolved(
                s,
                type_arguments@,
                rt@,
                type_arguments@.len() as int,
            ),
            _ => rs[n - 1].pattern == arms[n - 1].pattern,
        }
        &&& expr_resolved(s, arms[n - 1].body, rs[n - 1].body)
    }
}

proof fn lemma_type_list_fault_stop(s: Scope, ts: Seq<TypeRef>, i: int)
    requires
        0 <= i < ts.len(),
        type_list_fault(s, ts, i) is None,
        type_fault(s, ts[i]) is Some,
    ensures
        type_list_fault(s, ts, ts.len() as int) == type_fault(s, ts[i]),
{
    lemma_type_list_fault_prefix(s, ts, i + 1, ts.len() as int);
}

/// Resolves a list of written types, left to right.
pub fn resolve_type_list(s: &Scope, ts: &Vec<TypeRef>) -> (r: Result<Vec<TypeRef>, ResolveFault>)
    requires
        s.wf(),
    ensures
        r is Ok <==> type_list_fault(*s, ts@, ts@.len() as int) is None,
        r matches Ok(x) ==> x@.len() == ts@.len() && type_list_resolved(*s, ts@, x@, ts@.len() as int),
        r matches Err(f) ==> type_list_fault(*s, ts@, ts@.len() as int) == Some(f@),
{
    let mut out: Vec<TypeRef> = Vec::new();
    let mut i: usize = 0;
    while i < ts.len()
        invariant
            s.wf(),
            i <= ts@.len(),
            out@.len() == i,
            type_list_fault(*s, ts@, i as int) is None,
            type_list_resolved(*s, ts@, out@, i as int),
        decreases ts@.len() - i,
    {
        match resolve_type_ref(s, &ts[i]) {
            Ok(x) => {
                let ghost before = out@;
                out.push(x);
                proof {
                    lemma_type_list_step(*s, ts@, before, out@, i as int);
                }
            },
            Err(f) => {
                proof {
                    lemma_type_list_fault_stop(*s, ts@, i as int);
                }
                return Err(f);
            },
        }
        i = i + 1;
    }
    Ok(out)
}

proof fn lemma_expr_list_step(s: Scope, es: Seq<SyntaxExpr>, rs: Seq<SyntaxExpr>, rs2: Seq<SyntaxExpr>, n: int)
    requires
        0 <= n <= es.len(),
        n <= rs.len(),
        n <= rs2.len(),
        forall|j: int| 0 <= j < n ==> rs[j] == rs2[j],
        expr_list_resolved(s, es, rs, n),
    ensures
        expr_list_resolved(s, es, rs2, n),
    decreases n,
{
    if n > 0 {
        lemma_expr_list_step(s, es, rs, rs2, n - 1);
    }
}

proof fn lemma_expr_list_fault_prefix(s: Scope, es: Seq<SyntaxExpr>, k: int, n: int)
    requires
        0 < k <= n <= es.len(),
        expr_list_fault(s, es, k) is Some,
    ensures
        expr_list_fault(s, es, n) == expr_list_fault(s, es, k),
    decreases n - k,
{
    if n > k {
        lemma_expr_list_fault_prefix(s, es, k, n - 1);
    }
}

proof fn lemma_arm_list_step(s: Scope, arms: Seq<MatchArm>, rs: Seq<MatchArm>, rs2: Seq<MatchArm>, n: int)
    requires
        0 <= n <= arms.len(),
        n <= rs.len(),
        n <= rs2.len(),
        forall|j: int| 0 <= j < n ==> rs[j] == rs2[j],
        arm_list_resolved(s, arms, rs, n),
    ensures
        arm_list_resolved(s, arms, rs2, n),
    decreases n,
{
    if n > 0 {
        lemma_arm_list_step(s, arms, rs, rs2, n - 1);
    }
}

proof fn lemma_arm_list_fault_prefix(s: Scope, arms: Seq<MatchArm>, k: int, n: int)
    requires
        0 < k <= n <= arms.len(),
        arm_list_fault(s, arms, k) is Some,
    ensures
        arm_list_fault(s, arms, n) == arm_list_fault(s, arms, k),
    decreases n - k,
{
    if n > k {
        lemma_arm_list_fault_prefix(s, arms, k, n - 1);
    }
}

/// Resolves an expression: the types it writes, the calls it makes and
/// the enum patterns it matches.
pub fn resolve_expr(s: &Scope, e: &SyntaxExpr) -> (r: Result<SyntaxExpr, ResolveFault>)
    requires
        s.wf(),
    ensures
        r is Ok <==> expr_fault(*s, *e) is None,
        r matches Ok(x) ==> expr_resolved(*s, *e, x),
        r matches Err(f) ==> expr_fault(*s, *e) == Some(f@),
    decreases *e,
{
    match e {
        SyntaxExpr::Integer(n) => Ok(SyntaxExpr::Integer(*n)),
        SyntaxExpr::Character(c) => Ok(SyntaxExpr::Character(*c)),
        SyntaxExpr::Boolean(b) => Ok(SyntaxExpr::Boolean(*b)),
        SyntaxExpr::Text(t) => Ok(SyntaxExpr::Text(t.clone())),
        SyntaxExpr::Name(n) => Ok(SyntaxExpr::Name(n.clone())),
        SyntaxExpr::Array(values) => {
            let mut out: Vec<SyntaxExpr> = Vec::new();
            let mut i: usize = 0;
            while i < values.len()
                invariant
                    s.wf(),
                    i <= values@.len(),
                    *e == SyntaxExpr::Array(*values),
                    out@.len() == i,
                    expr_list_fault(*s, values@, i as int) is None,
                    expr_list_resolved(*s, values@, out@, i as int),
                decreases values@.len() - i,
            {
                proof {
                    assert(decreases_to!(*e => *values));
                    assert(decreases_to!(*values => values@));
                    assert(decreases_to!(values@ => values@[i as int]));
                }
                match resolve_expr(s, &values[i]) {
                    Ok(x) => {
                        let ghost before = out@;
                        out.push(x);
                        proof {
                            lemma_expr_list_step(*s, values@, before, out@, i as int);
                        }
                    },
                    Err(f) => {
                        proof {
                            lemma_expr_list_fault_prefix(*s, values@, i + 1, values@.len() as int);
                        }
                        return Err(f);
                    },
                }
                i = i + 1;
            }
            Ok(SyntaxExpr::Array(out))
        },
        SyntaxExpr::RepeatArray { value, length } => {
            let v = resolve_expr(s, value)?;
            Ok(SyntaxExpr::RepeatArray { value: Box::new(v), length: *length })
        },
        SyntaxExpr::Unary { operator, operand } => {
            let v = resolve_expr(s, operand)?;
            Ok(SyntaxExpr::Unary { operator: *operator, operand: Box::new(v) })
        },
        SyntaxExpr::AddressOf(operand) => {
            let v = resolve_expr(s, operand)?;
            Ok(SyntaxExpr::AddressOf(Box::new(v)))
        },
        SyntaxExpr::Deref(operand) => {
            let v = resolve_expr(s, operand)?;
            Ok(SyntaxExpr::Deref(Box::new(v)))
        },
        SyntaxExpr::Cast { value, ty } => {
            let v = resolve_expr(s, value)?;
            let t = resolve_type_ref(s, ty)?;
            Ok(SyntaxExpr::Cast { value: Box::new(v), ty: t })
        },
        SyntaxExpr::Index { array, index } => {
            let a = resolve_expr(s, array)?;
            let i = resolve_expr(s, index)?;
            Ok(SyntaxExpr::Index { array: Box::new(a), index: Box::new(i) })
        },
        SyntaxExpr::Binary { operator, left, right } => {
            let l = resolve_expr(s, left)?;
            let r = resolve_expr(s, right)?;
            Ok(SyntaxExpr::Binary { operator: *operator, left: Box::new(l), right: Box::new(r) })
        },
        SyntaxExpr::Call { callee, type_arguments, arguments } => {
            let mut out: Vec<SyntaxExpr> = Vec::new();
            let mut i: usize = 0;
            while i < arguments.len()
                invariant
                    s.wf(),
                    i <= arguments@.len(),
                    *e == (SyntaxExpr::Call {
                        callee: *callee,
                        type_arguments: *type_arguments,
                        arguments: *arguments,
                    }),
                    out@.len() == i,
                    expr_list_fault(*s, arguments@, i as int) is None,
                    expr_list_resolved(*s, arguments@, out@, i as int),
                decreases arguments@.len() - i,
            {
                proof {
                    assert(decreases_to!(*e => *arguments));
                    assert(decreases_to!(*arguments => arguments@));
                    assert(decreases_to!(arguments@ => arguments@[i as int]));
                }
                match resolve_expr(s, &arguments[i]) {
                    Ok(x) => {
                        let ghost before = out@;
                        out.push(x);
                        proof {
                            lemma_expr_list_step(*s, arguments@, before, out@, i as int);
                        }
                    },
                    Err(f) => {
                        proof {
                            lemma_expr_list_fault_prefix(*s, arguments@, i + 1, arguments@.len() as int);
                        }
                        return Err(f);
                    },
                }
                i = i + 1;
            }
            let types = resolve_type_list(s, type_arguments)?;
            let target = resolve_call(s, callee.as_str(), type_arguments.len() > 0)?;
            Ok(SyntaxExpr::Call { callee: target, type_arguments: types, arguments: out })
        },
        SyntaxExpr::Field { base, field } => {
            let b = resolve_expr(s, base)?;
            Ok(SyntaxExpr::Field { base: Box::new(b), field: field.clone() })
        },
        SyntaxExpr::Match { value, arms } => {
            let v = resolve_expr(s, value)?;
            let mut out: Vec<MatchArm> = Vec::new();
            let mut i: usize = 0;
            while i < arms.len()
                invariant
                    s.wf(),
                    i <= arms@.len(),
                    *e == (SyntaxExpr::Match { value: *value, arms: *arms }),
                    expr_fault(*s, **value) is None,
                    expr_resolved(*s, **value, v),
                    out@.len() == i,
                    arm_list_fault(*s, arms@, i as int) is None,
                    arm_list_resolved(*s, arms@, out@, i as int),
                decreases arms@.len() - i,
            {
                proof {
                    assert(decreases_to!(*e => *arms));
                    assert(decreases_to!(*arms => arms@));
                    assert(decreases_to!(arms@ => arms@[i as int]));
                    assert(decreases_to!(arms@[i as int] => arms@[i as int].body));
                }
                let arm = &arms[i];
                let pattern = match &arm.pattern {
                    MatchPattern::Enum { name, type_arguments, bindings } => {
                        match resolve_type_list(s, type_arguments) {
                            Ok(types) => MatchPattern::Enum {
                                name: qualify_enum_variant(
                                    s.module.as_str(),
                                    &s.imports,
                                    &s.type_names,
                                    name.as_str(),
                                ),
                                type_arguments: types,
                                bindings: bindings.clone(),
                            },
                            Err(f) => {
                                assert(arm_list_fault(*s, arms@, i + 1) == Some(f@));
                                proof {
                                    lemma_arm_list_fault_prefix(*s, arms@, i + 1, arms@.len() as int);
                                }
                                return Err(f);
                            },
                        }
                    },
                    MatchPattern::Binding(n) => MatchPattern::Binding(n.clone()),
                    MatchPattern::Wildcard => MatchPattern::Wildcard,
                };
                match resolve_expr(s, &arm.body) {
                    Ok(body) => {
                        let ghost before = out@;
                        out.push(MatchArm { pattern, body });
                        proof {
                            lemma_arm_list_step(*s, arms@, before, out@, i as int);
                        }
                    },
                    Err(f) => {
                        assert(arm_list_fault(*s, arms@, i + 1) == Some(f@));
                        proof {
                            lemma_arm_list_fault_prefix(*s, arms@, i + 1, arms@.len() as int);
                        }
                        return Err(f);
                    },
                }
                i = i + 1;
            }
            Ok(SyntaxExpr::Match { value: Box::new(v), arms: out })
        },
    }
}

// ---------------------------------------------------------------------------
// Statements.
// ---------------------------------------------------------------------------

/// What a `for` loop walks.
#[derive(Debug)]
pub enum ForIterable {
    /// `start..end` or `start..=end`.
    Range { start: SyntaxExpr, end: SyntaxExpr, inclusive: bool },
    /// The elements of an array.
    Array(SyntaxExpr),
}

/// A statement of a function body, as far as resolution reads it.
#[derive(Debug)]
pub enum SyntaxStatement {
    Variable { mutable: bool, name: String, annotation: Option<TypeRef>, initializer: SyntaxExpr },
    Assignment { name: String, operator: Option<BinaryOperator>, value: SyntaxExpr },
    IndexAssignment { name: String, index: SyntaxExpr, operator: Option<BinaryOperator>, value: SyntaxExpr },
    FieldAssignment {
        name: String,
        field: String,
        deref: bool,
        operator: Option<BinaryOperator>,
        value: SyntaxExpr,
    },
    Expression(SyntaxExpr),
    If { condition: SyntaxExpr, then_block: Vec<SyntaxStatement>, else_block: Option<Vec<SyntaxStatement>> },
    Loop(Vec<SyntaxStatement>),
    While { condition: SyntaxExpr, body: Vec<SyntaxStatement> },
    For { name: String, iterable: ForIterable, body: Vec<SyntaxStatement> },
    Return(Option<SyntaxExpr>),
    Defer(SyntaxExpr),
    Break,
    Continue,
}

/// The first of two possible faults.
pub open spec fn either(first: Option<FaultView>, second: Option<FaultView>) -> Option<FaultView> {
    match first {
        Some(f) => Some(f),
        None => second,
    }
}

/// The first fault of a statement, in source order.
pub open spec fn stmt_fault(s: Scope, st: SyntaxStatement) -> Option<FaultView>
    decreases st,
{
    match st {
        SyntaxStatement::Variable { annotation, initializer, .. } => either(
            match annotation {
                Some(t) => type_fault(s, t),
                None => None,
            },
            expr_fault(s, initializer),
        ),
        SyntaxStatement::Assignment { value, .. } => expr_fault(s, value),
        SyntaxStatement::IndexAssignment { index, value, .. } => either(
            expr_fault(s, index),
            expr_fault(s, value),
        ),
        SyntaxStatement::FieldAssignment { value, .. } => expr_fault(s, value),
        SyntaxStatement::Expression(e) => expr_fault(s, e),
        SyntaxStatement::If { condition, then_block, else_block } => either(
            expr_fault(s, condition),
            either(
                block_fault(s, then_block@, then_block@.len() as int),
                match else_block {
                    Some(b) => block_fault(s, b@, b@.len() as int),
                    None => None,
                },
            ),
        ),
        SyntaxStatement::Loop(body) => block_fault(s, body@, body@.len() as int),
        SyntaxStatement::While { condition, body } => either(
            expr_fault(s, condition),
            block_fault(s, body@, body@.len() as int),
        ),
        SyntaxStatement::For { iterable, body, .. } => either(
            match iterable {
                ForIterable::Range { start, end, .. } => either(expr_fault(s, start), expr_fault(s, end)),
                ForIterable::Array(a) => expr_fault(s, a),
            },
            block_fault(s, body@, body@.len() as int),
        ),
        SyntaxStatement::Return(Some(v)) => expr_fault(s, v),
        SyntaxStatement::Defer(call) => expr_fault(s, call),
        _ => None,
    }
}

/// The first fault among the first `n` statements of a block.
pub open spec fn block_fault(s: Scope, b: Seq<SyntaxStatement>, n: int) -> Option<FaultView>
    decreases b, n,
{
    if n <= 0 || n > b.len() {
        None
    } else {
        either(block_fault(s, b, n - 1), stmt_fault(s, b[n - 1]))
    }
}

/// `r` is the statement `st` with its expressions, types and nested blocks
/// resolved.
pub open spec fn stmt_resolved(s: Scope, st: SyntaxStatement, r: SyntaxStatement) -> bool
    decreases st,
{
    match st {
        SyntaxStatement::Variable { mutable, name, annotation, initializer } => r matches SyntaxStatement::Variable {
            mutable: rm,
            name: rn,
            annotation: rt,
            initializer: ri,
        } && rm == mutable && rn@ == name@ && (match annotation {
            Some(t) => rt matches Some(x) && type_resolved(s, t, x),
            None => rt is None,
        }) && expr_resolved(s, initializer, ri),
        SyntaxStatement::Assignment { name, operator, value } => r matches SyntaxStatement::Assignment {
            name: rn,
            operator: ro,
            value: rv,
        } && rn@ == name@ && ro == operator && expr_resolved(s, value, rv),
        SyntaxStatement::IndexAssignment { name, index, operator, value } => r matches SyntaxStatement::IndexAssignment {
            name: rn,
            index: ri,
            operator: ro,
            value: rv,
        } && rn@ == name@ && ro == operator && expr_resolved(s, index, ri) && expr_resolved(s, value, rv),
        SyntaxStatement::FieldAssignment { name, field, deref, operator, value } => r matches SyntaxStatement::FieldAssignment {
            name: rn,
            field: rf,
            deref: rd,
            operator: ro,
            value: rv,
        } && rn@ == name@ && rf@ == field@ && rd == deref && ro == operator && expr_resolved(s, value, rv),
        SyntaxStatement::Expression(e) => r matches SyntaxStatement::Expression(re) && expr_resolved(s, e, re),
        SyntaxStatement::If { condition, then_block, else_block } => r matches SyntaxStatement::If {
            condition: rc,
            then_block: rt,
            else_block: re,
        } && expr_resolved(s, condition, rc) && block_resolved(s, then_block@, rt@) && (match else_block {
            Some(b) => re matches Some(x) && block_resolved(s, b@, x@),
            None => re is None,
        }),
        SyntaxStatement::Loop(body) => r matches SyntaxStatement::Loop(rb) && block_resolved(s, body@, rb@),
        SyntaxStatement::While { condition, body } => r matches SyntaxStatement::While { condition: rc, body: rb }
            && expr_resolved(s, condition, rc) && block_resolved(s, body@, rb@),
        SyntaxStatement::For { name, iterable, body } => r matches SyntaxStatement::For {
            name: rn,
            iterable: ri,
            body: rb,
        } && rn@ == name@ && (match iterable {
            ForIterable::Range { start, end, inclusive } => ri matches ForIterable::Range {
                start: rs,
                end: re,
                inclusive: rinc,
            } && rinc == inclusive && expr_resolved(s, start, rs) && expr_resolved(s, end, re),
            ForIterable::Array(a) => ri matches ForIterable::Array(ra) && expr_resolved(s, a, ra),
        }) && block_resolved(s, body@, rb@),
        SyntaxStatement::Return(v) => r matches SyntaxStatement::Return(rv) && (match v {
            Some(x) => rv matches Some(y) && expr_resolved(s, x, y),
            None => rv is None,
        }),
        SyntaxStatement::Defer(call) => r matches SyntaxStatement::Defer(rc) && expr_resolved(s, call, rc),
        SyntaxStatement::Break => r is Break,
        SyntaxStatement::Continue => r is Continue,
    }
}

/// `rs` is the block `b` with each statement resolved.
pub open spec fn block_resolved(s: Scope, b: Seq<SyntaxStatement>, rs: Seq<SyntaxStatement>) -> bool
    decreases b,
{
    rs.len() == b.len() && block_prefix_resolved(s, b, rs, b.len() as int)
}

/// The first `n` statements of `rs` resolve those of `b`.
pub open spec fn block_prefix_resolved(s: Scope, b: Seq<SyntaxStatement>, rs: Seq<SyntaxStatement>, n: int) -> bool
    decreases b, n,
{
    if n <= 0 || n > b.len() {
        true
    } else {
        block_prefix_resolved(s, b, rs, n - 1) && stmt_resolved(s, b[n - 1], rs[n - 1])
    }
}

proof fn lemma_block_step(s: Scope, b: Seq<SyntaxStatement>, rs: Seq<SyntaxStatement>, rs2: Seq<SyntaxStatement>, n: int)
    requires
        0 <= n <= b.len(),
        n <= rs.len(),
        n <= rs2.len(),
        forall|j: int| 0 <= j < n ==> rs[j] == rs2[j],
        block_prefix_resolved(s, b, rs, n),
    ensures
        block_prefix_resolved(s, b, rs2, n),
    decreases n,
{
    if n > 0 {
        lemma_block_step(s, b, rs, rs2, n - 1);
    }
}

proof fn lemma_block_fault_prefix(s: Scope, b: Seq<SyntaxStatement>, k: int, n: int)
    requires
        0 < k <= n <= b.len(),
        block_fault(s, b, k) is Some,
    ensures
        block_fault(s, b, n) == block_fault(s, b, k),
    decreases n - k,
{
    if n > k {
        lemma_block_fault_prefix(s, b, k, n - 1);
    }
}

/// Resolves a block, statement by statement.
pub fn resolve_block(s: &Scope, b: &Vec<SyntaxStatement>) -> (r: Result<Vec<SyntaxStatement>, ResolveFault>)
    requires
        s.wf(),
    ensures
        r is Ok <==> block_fault(*s, b@, b@.len() as int) is None,
        r matches Ok(x) ==> block_resolved(*s, b@, x@),
        r matches Err(f) ==> block_fault(*s, b@, b@.len() as int) == Some(f@),
    decreases b@,
{
    let mut out: Vec<SyntaxStatement> = Vec::new();
    let mut i: usize = 0;
    while i < b.len()
        invariant
            s.wf(),
            i <= b@.len(),
            out@.len() == i,
            block_fault(*s, b@, i as int) is None,
            block_prefix_resolved(*s, b@, out@, i as int),
        decreases b@.len() - i,
    {
        proof {
            assert(decreases_to!(b@ => b@[i as int]));
        }
        match resolve_statement(s, &b[i]) {
            Ok(x) => {
                let ghost before = out@;
                out.push(x);
                proof {
                    lemma_block_step(*s, b@, before, out@, i as int);
                }
            },
            Err(f) => {
                proof {
                    lemma_block_fault_prefix(*s, b@, i + 1, b@.len() as int);
                }
                return Err(f);
            },
        }
        i = i + 1;
    }
    Ok(out)
}

/// Resolves one statement: its type annotation, its expressions and its
/// nested blocks, in source order.
pub fn resolve_statement(s: &Scope, st: &SyntaxStatement) -> (r: Result<SyntaxStatement, ResolveFault>)
    requires
        s.wf(),
    ensures
        r is Ok <==> stmt_fault(*s, *st) is None,
        r matches Ok(x) ==> stmt_resolved(*s, *st, x),
        r matches Err(f) ==> stmt_fault(*s, *st) == Some(f@),
    decreases *st,
{
    match st {
        SyntaxStatement::Variable { mutable, name, annotation, initializer } => {
            let t = match annotation {
                Some(t) => Some(resolve_type_ref(s, t)?),
                None => None,
            };
            let i = resolve_expr(s, initializer)?;
            Ok(SyntaxStatement::Variable { mutable: *mutable, name: name.clone(), annotation: t, initializer: i })
        },
        SyntaxStatement::Assignment { name, operator, value } => {
            let v = resolve_expr(s, value)?;
            Ok(SyntaxStatement::Assignment { name: name.clone(), operator: *operator, value: v })
        },
        SyntaxStatement::IndexAssignment { name, index, operator, value } => {
            let i = resolve_expr(s, index)?;
            let v = resolve_expr(s, value)?;
            Ok(SyntaxStatement::IndexAssignment { name: name.clone(), index: i, operator: *operator, value: v })
        },
        SyntaxStatement::FieldAssignment { name, field, deref, operator, value } => {
            let v = resolve_expr(s, value)?;
            Ok(
                SyntaxStatement::FieldAssignment {
                    name: name.clone(),
                    field: field.clone(),
                    deref: *deref,
                    operator: *operator,
                    value: v,
                },
            )
        },
        SyntaxStatement::Expression(e) => {
            let x = resolve_expr(s, e)?;
            Ok(SyntaxStatement::Expression(x))
        },
        SyntaxStatement::If { condition, then_block, else_block } => {
            let c = resolve_expr(s, condition)?;
            proof {
                assert(decreases_to!(*st => *then_block));
                assert(decreases_to!(*then_block => then_block@));
            }
            let t = resolve_block(s, then_block)?;
            let e = match else_block {
                Some(b) => {
                    proof {
                        assert(decreases_to!(*st => *else_block));
                        assert(decreases_to!(*else_block => *b));
                        assert(decreases_to!(*b => b@));
                    }
                    Some(resolve_block(s, b)?)
                },
                None => None,
            };
            Ok(SyntaxStatement::If { condition: c, then_block: t, else_block: e })
        },
        SyntaxStatement::Loop(body) => {
            proof {
                assert(decreases_to!(*st => *body));
                assert(decreases_to!(*body => body@));
            }
            let b = resolve_block(s, body)?;
            Ok(SyntaxStatement::Loop(b))
        },
        SyntaxStatement::While { condition, body } => {
            let c = resolve_expr(s, condition)?;
            proof {
                assert(decreases_to!(*st => *body));
                assert(decreases_to!(*body => body@));
            }
            let b = resolve_block(s, body)?;
            Ok(SyntaxStatement::While { condition: c, body: b })
        },
        SyntaxStatement::For { name, iterable, body } => {
            let it = match iterable {
                ForIterable::Range { start, end, inclusive } => {
                    let a = resolve_expr(s, start)?;
                    let z = resolve_expr(s, end)?;
                    ForIterable::Range { start: a, end: z, inclusive: *inclusive }
                },
                ForIterable::Array(a) => ForIterable::Array(resolve_expr(s, a)?),
            };
            proof {
                assert(decreases_to!(*st => *body));
                assert(decreases_to!(*body => body@));
            }
            let b = resolve_block(s, body)?;
            Ok(SyntaxStatement::For { name: name.clone(), iterable: it, body: b })
        },
        SyntaxStatement::Return(v) => match v {
            Some(x) => {
                let y = resolve_expr(s, x)?;
                Ok(SyntaxStatement::Return(Some(y)))
            },
            None => Ok(SyntaxStatement::Return(None)),
        },
        SyntaxStatement::Defer(call) => {
            let c = resolve_expr(s, call)?;
            Ok(SyntaxStatement::Defer(c))
        },
        SyntaxStatement::Break => Ok(SyntaxStatement::Break),
        SyntaxStatement::Continue => Ok(SyntaxStatement::Continue),
    }
}

// ---------------------------------------------------------------------------
// Declarations.
// ---------------------------------------------------------------------------

/// The trait a bound names, qualified through the scope's imports.
pub open spec fn bound_target(s: Scope, traits: Seq<Definition>, bound: Seq<char>) -> Seq<char> {
    type_name_target(s.module@, s.imports@, definition_views(traits), bound)
}

/// The first type parameter among the first `n` whose bound names no trait.
pub open spec fn bounds_fault(s: Scope, traits: Seq<Definition>, params: Seq<TypeParamDecl>, n: int) -> Option<FaultView>
    decreases n,
{
    if n <= 0 || n > params.len() {
        None
    } else {
        either(
            bounds_fault(s, traits, params, n - 1),
            match params[n - 1].bound {
                Some(b) => if decl(traits, bound_target(s, traits, b@)) is Some {
                    None
                } else {
                    Some(FaultView::UnknownTrait(b@))
                },
                None => None,
            },
        )
    }
}

/// `out` is `params` with each bound qualified to the trait it names.
pub open spec fn bounds_resolved(s: Scope, traits: Seq<Definition>, params: Seq<TypeParamDecl>, out: Seq<TypeParamDecl>) -> bool {
    out.len() == params.len() && forall|i: int|
        0 <= i < params.len() ==> (#[trigger] out[i]).name@ == params[i].name@ && match params[i].bound {
            Some(b) => out[i].bound matches Some(rb) && rb@ == bound_target(s, traits, b@),
            None => out[i].bound is None,
        }
}

/// Resolves the trait bounds of type parameters: each bound is qualified
/// to the trait it names, which must exist.
pub fn resolve_bounds(s: &Scope, traits: &Vec<Definition>, params: &Vec<TypeParamDecl>) -> (r: Result<
    Vec<TypeParamDecl>,
    ResolveFault,
>)
    ensures
        r is Ok <==> bounds_fault(*s, traits@, params@, params@.len() as int) is None,
        r matches Err(f) ==> bounds_fault(*s, traits@, params@, params@.len() as int) == Some(f@),
        r matches Ok(x) ==> bounds_resolved(*s, traits@, params@, x@),
{
    let mut out: Vec<TypeParamDecl> = Vec::new();
    let mut i: usize = 0;
    while i < params.len()
        invariant
            i <= params@.len(),
            out@.len() == i,
            bounds_fault(*s, traits@, params@, i as int) is None,
            forall|j: int|
                0 <= j < i ==> (#[trigger] out@[j]).name@ == params@[j].name@ && match params@[j].bound {
                    Some(b) => out@[j].bound matches Some(rb) && rb@ == bound_target(*s, traits@, b@),
                    None => out@[j].bound is None,
                },
        decreases params@.len() - i,
    {
        let bound = match &params[i].bound {
            Some(b) => {
                let resolved = resolve_type_name(s.module.as_str(), &s.imports, traits, b.as_str());
                if find_in(traits, resolved.as_str()).is_none() {
                    proof {
                        lemma_bounds_fault_prefix(*s, traits@, params@, i + 1, params@.len() as int);
                    }
                    return Err(ResolveFault::UnknownTrait { bound: b.clone() });
                }
                Some(resolved)
            },
            None => None,
        };
        out.push(TypeParamDecl { name: params[i].name.clone(), bound });
        i = i + 1;
    }
    Ok(out)
}

proof fn lemma_bounds_fault_prefix(s: Scope, traits: Seq<Definition>, params: Seq<TypeParamDecl>, k: int, n: int)
    requires
        0 < k <= n <= params.len(),
        bounds_fault(s, traits, params, k) is Some,
    ensures
        bounds_fault(s, traits, params, n) == bounds_fault(s, traits, params, k),
    decreases n - k,
{
    if n > k {
        lemma_bounds_fault_prefix(s, traits, params, k, n - 1);
    }
}

/// The first fault of a signature's types: its parameters in order, then
/// its return type.
pub open spec fn signature_fault(s: Scope, sig: Signature) -> Option<FaultView> {
    either(
        param_list_fault(s, sig.parameters@, sig.parameters@.len() as int),
        match sig.return_type {
            Some(t) => type_fault(s, t),
            None => None,
        },
    )
}

/// The first fault among the first `n` parameter types.
pub open spec fn param_list_fault(s: Scope, ps: Seq<SignatureParam>, n: int) -> Option<FaultView>
    decreases n,
{
    if n <= 0 || n > ps.len() {
        None
    } else {
        either(param_list_fault(s, ps, n - 1), type_fault(s, ps[n - 1].ty))
    }
}

proof fn lemma_param_list_fault_prefix(s: Scope, ps: Seq<SignatureParam>, k: int, n: int)
    requires
        0 < k <= n <= ps.len(),
        param_list_fault(s, ps, k) is Some,
    ensures
        param_list_fault(s, ps, n) == param_list_fault(s, ps, k),
    decreases n - k,
{
    if n > k {
        lemma_param_list_fault_prefix(s, ps, k, n - 1);
    }
}

/// `out` is `sig` with its parameter and return types resolved.
pub open spec fn signature_resolved(s: Scope, sig: Signature, out: Signature) -> bool {
    &&& out.parameters@.len() == sig.parameters@.len()
    &&& forall|i: int|
        0 <= i < sig.parameters@.len() ==> (#[trigger] out.parameters@[i]).receiver == sig.parameters@[i].receiver
            && type_resolved(s, sig.parameters@[i].ty, out.parameters@[i].ty)
    &&& match sig.return_type {
        Some(t) => out.return_type matches Some(rt) && type_resolved(s, t, rt),
        None => out.return_type is None,
    }
}

/// Resolves the types of a function's or method's signature; the receiver
/// keeps its place.
pub fn resolve_signature(s: &Scope, sig: &Signature) -> (r: Result<Signature, ResolveFault>)
    requires
        s.wf(),
    ensures
        r is Ok <==> signature_fault(*s, *sig) is None,
        r matches Err(f) ==> signature_fault(*s, *sig) == Some(f@),
        r matches Ok(x) ==> signature_resolved(*s, *sig, x),
{
    let mut out: Vec<SignatureParam> = Vec::new();
    let mut i: usize = 0;
    while i < sig.parameters.len()
        invariant
            s.wf(),
            i <= sig.parameters@.len(),
            out@.len() == i,
            param_list_fault(*s, sig.parameters@, i as int) is None,
            forall|j: int|
                0 <= j < i ==> (#[trigger] out@[j]).receiver == sig.parameters@[j].receiver && type_resolved(
                    *s,
                    sig.parameters@[j].ty,
                    out@[j].ty,
                ),
        decreases sig.parameters@.len() - i,
    {
        match resolve_type_ref(s, &sig.parameters[i].ty) {
            Ok(t) => {
                out.push(SignatureParam { receiver: sig.parameters[i].receiver, ty: t });
            },
            Err(f) => {
                proof {
                    lemma_param_list_fault_prefix(*s, sig.parameters@, i + 1, sig.parameters@.len() as int);
                }
                return Err(f);
            },
        }
        i = i + 1;
    }
    let return_type = match &sig.return_type {
        Some(t) => Some(resolve_type_ref(s, t)?),
        None => None,
    };
    Ok(Signature { parameters: out, return_type })
}

/// A function or method as written: its name, type parameters,
/// signature and body.
#[derive(Debug)]
pub struct FunctionDecl {
    pub name: String,
    pub public: bool,
    pub type_params: Vec<TypeParamDecl>,
    pub signature: Signature,
    pub body: Vec<SyntaxStatement>,
}

/// The first fault of a function: its bounds, then its signature, then its
/// body.
pub open spec fn function_fault(s: Scope, traits: Seq<Definition>, f: FunctionDecl) -> Option<FaultView> {
    either(
        bounds_fault(s, traits, f.type_params@, f.type_params@.len() as int),
        either(signature_fault(s, f.signature), block_fault(s, f.body@, f.body@.len() as int)),
    )
}

/// Resolves a function of the scope's module: its bounds, its signature
/// and its body, and qualifies its name with the module. For a method the
/// scope's locals hold `self` besides the module's functions.
pub fn resolve_function(s: &Scope, traits: &Vec<Definition>, f: &FunctionDecl) -> (r: Result<FunctionDecl, ResolveFault>)
    requires
        s.wf(),
    ensures
        r is Ok <==> function_fault(*s, traits@, *f) is None,
        r matches Err(e) ==> function_fault(*s, traits@, *f) == Some(e@),
        r matches Ok(x) ==> x.name@ == qualified(s.module@, f.name@) && x.public == f.public && bounds_resolved(
            *s,
            traits@,
            f.type_params@,
            x.type_params@,
        ) && signature_resolved(*s, f.signature, x.signature) && block_resolved(*s, f.body@, x.body@),
{
    let type_params = resolve_bounds(s, traits, &f.type_params)?;
    let signature = resolve_signature(s, &f.signature)?;
    let body = resolve_block(s, &f.body)?;
    Ok(
        FunctionDecl {
            name: qualify(s.module.as_str(), f.name.as_str()),
            public: f.public,
            type_params,
            signature,
            body,
        },
    )
}

/// A struct field as written.
#[derive(Debug)]
pub struct FieldDecl {
    pub name: String,
    pub ty: TypeRef,
}

/// A struct declaration as written.
#[derive(Debug)]
pub struct StructDecl {
    pub name: String,
    pub public: bool,
    pub type_params: Vec<TypeParamDecl>,
    pub fields: Vec<FieldDecl>,
}

/// An enum variant as written: its name and the types of its fields.
#[derive(Debug)]
pub struct VariantDecl {
    pub name: String,
    pub fields: Vec<TypeRef>,
}

/// An enum declaration as written.
#[derive(Debug)]
pub struct EnumDecl {
    pub name: String,
    pub public: bool,
    pub type_params: Vec<TypeParamDecl>,
    pub variants: Vec<VariantDecl>,
}

/// The first fault among the first `n` field types.
pub open spec fn field_list_fault(s: Scope, fs: Seq<FieldDecl>, n: int) -> Option<FaultView>
    decreases n,
{
    if n <= 0 || n > fs.len() {
        None
    } else {
        either(field_list_fault(s, fs, n - 1), type_fault(s, fs[n - 1].ty))
    }
}

/// `out` is `fs` with each field type resolved.
pub open spec fn fields_resolved(s: Scope, fs: Seq<FieldDecl>, out: Seq<FieldDecl>) -> bool {
    out.len() == fs.len() && forall|i: int|
        0 <= i < fs.len() ==> (#[trigger] out[i]).name@ == fs[i].name@ && type_resolved(s, fs[i].ty, out[i].ty)
}

proof fn lemma_field_list_fault_prefix(s: Scope, fs: Seq<FieldDecl>, k: int, n: int)
    requires
        0 < k <= n <= fs.len(),
        field_list_fault(s, fs, k) is Some,
    ensures
        field_list_fault(s, fs, n) == field_list_fault(s, fs, k),
    decreases n - k,
{
    if n > k {
        lemma_field_list_fault_prefix(s, fs, k, n - 1);
    }
}

/// The first fault of a struct declaration: its bounds, then its fields.
pub open spec fn struct_fault(s: Scope, traits: Seq<Definition>, d: StructDecl) -> Option<FaultView> {
    either(
        bounds_fault(s, traits, d.type_params@, d.type_params@.len() as int),
        field_list_fault(s, d.fields@, d.fields@.len() as int),
    )
}

/// Resolves a struct declaration of the scope's module: its name is
/// qualified, its bounds and field types resolved.
pub fn resolve_struct(s: &Scope, traits: &Vec<Definition>, d: &StructDecl) -> (r: Result<StructDecl, ResolveFault>)
    requires
        s.wf(),
    ensures
        r is Ok <==> struct_fault(*s, traits@, *d) is None,
        r matches Err(e) ==> struct_fault(*s, traits@, *d) == Some(e@),
        r matches Ok(x) ==> x.name@ == qualified(s.module@, d.name@) && x.public == d.public && bounds_resolved(
            *s,
            traits@,
            d.type_params@,
            x.type_params@,
        ) && fields_resolved(*s, d.fields@, x.fields@),
{
    let type_params = resolve_bounds(s, traits, &d.type_params)?;
    let mut fields: Vec<FieldDecl> = Vec::new();
    let mut i: usize = 0;
    while i < d.fields.len()
        invariant
            s.wf(),
            i <= d.fields@.len(),
            fields@.len() == i,
            bounds_fault(*s, traits@, d.type_params@, d.type_params@.len() as int) is None,
            bounds_resolved(*s, traits@, d.type_params@, type_params@),
            field_list_fault(*s, d.fields@, i as int) is None,
            forall|j: int|
                0 <= j < i ==> (#[trigger] fields@[j]).name@ == d.fields@[j].name@ && type_resolved(
                    *s,
                    d.fields@[j].ty,
                    fields@[j].ty,
                ),
        decreases d.fields@.len() - i,
    {
        match resolve_type_ref(s, &d.fields[i].ty) {
            Ok(t) => {
                fields.push(FieldDecl { name: d.fields[i].name.clone(), ty: t });
            },
            Err(f) => {
                proof {
                    lemma_field_list_fault_prefix(*s, d.fields@, i + 1, d.fields@.len() as int);
                }
                return Err(f);
            },
        }
        i = i + 1;
    }
    Ok(
        StructDecl {
            name: qualify(s.module.as_str(), d.name.as_str()),
            public: d.public,
            type_params,
            fields,
        },
    )
}

/// The first fault among the first `n` variants' field types.
pub open spec fn variant_list_fault(s: Scope, vs: Seq<VariantDecl>, n: int) -> Option<FaultView>
    decreases n,
{
    if n <= 0 || n > vs.len() {
        None
    } else {
        either(
            variant_list_fault(s, vs, n - 1),
            type_list_fault(s, vs[n - 1].fields@, vs[n - 1].fields@.len() as int),
        )
    }
}

/// `out` is `vs` with each variant's field types resolved.
pub open spec fn variants_resolved(s: Scope, vs: Seq<VariantDecl>, out: Seq<VariantDecl>) -> bool {
    out.len() == vs.len() && forall|i: int|
        0 <= i < vs.len() ==> (#[trigger] out[i]).name@ == vs[i].name@ && out[i].fields@.len()
            == vs[i].fields@.len() && type_list_resolved(
            s,
            vs[i].fields@,
            out[i].fields@,
            vs[i].fields@.len() as int,
        )
}

proof fn lemma_variant_list_fault_prefix(s: Scope, vs: Seq<VariantDecl>, k: int, n: int)
    requires
        0 < k <= n <= vs.len(),
        variant_list_fault(s, vs, k) is Some,
    ensures
        variant_list_fault(s, vs, n) == variant_list_fault(s, vs, k),
    decreases n - k,
{
    if n > k {
        lemma_variant_list_fault_prefix(s, vs, k, n - 1);
    }
}

/// The first fault of an enum declaration: its bounds, then its variants.
pub open spec fn enum_fault(s: Scope, traits: Seq<Definition>, d: EnumDecl) -> Option<FaultView> {
    either(
        bounds_fault(s, traits, d.type_params@, d.type_params@.len() as int),
        variant_list_fault(s, d.variants@, d.variants@.len() as int),
    )
}

/// Resolves an enum declaration of the scope's module: its name is
/// qualified, its bounds and variant field types resolved.
pub fn resolve_enum(s: &Scope, traits: &Vec<Definition>, d: &EnumDecl) -> (r: Result<EnumDecl, ResolveFault>)
    requires
        s.wf(),
    ensures
        r is Ok <==> enum_fault(*s, traits@, *d) is None,
        r matches Err(e) ==> enum_fault(*s, traits@, *d) == Some(e@),
        r matches Ok(x) ==> x.name@ == qualified(s.module@, d.name@) && x.public == d.public && bounds_resolved(
            *s,
            traits@,
            d.type_params@,
            x.type_params@,
        ) && variants_resolved(*s, d.variants@, x.variants@),
{
    let type_params = resolve_bounds(s, traits, &d.type_params)?;
    let mut variants: Vec<VariantDecl> = Vec::new();
    let mut i: usize = 0;
    while i < d.variants.len()
        invariant
            s.wf(),
            i <= d.variants@.len(),
            variants@.len() == i,
            bounds_fault(*s, traits@, d.type_params@, d.type_params@.len() as int) is None,
            bounds_resolved(*s, traits@, d.type_params@, type_params@),
            variant_list_fault(*s, d.variants@, i as int) is None,
            forall|j: int|
                0 <= j < i ==> (#[trigger] variants@[j]).name@ == d.variants@[j].name@ && variants@[j].fields@.len()
                    == d.variants@[j].fields@.len() && type_list_resolved(
                    *s,
                    d.variants@[j].fields@,
                    variants@[j].fields@,
                    d.variants@[j].fields@.len() as int,
                ),
        decreases d.variants@.len() - i,
    {
        match resolve_type_list(s, &d.variants[i].fields) {
            Ok(t) => {
                variants.push(VariantDecl { name: d.variants[i].name.clone(), fields: t });
            },
            Err(f) => {
                proof {
                    lemma_variant_list_fault_prefix(*s, d.variants@, i + 1, d.variants@.len() as int);
                }
                return Err(f);
            },
        }
        i = i + 1;
    }
    Ok(
        EnumDecl {
            name: qualify(s.module.as_str(), d.name.as_str()),
            public: d.public,
            type_params,
            variants,
        },
    )
}

/// A method declared by a trait: its name, type parameters and signature.
#[derive(Debug)]
pub struct TraitMethodDecl {
    pub name: String,
    pub type_params: Vec<TypeParamDecl>,
    pub signature: Signature,
}

/// A trait declaration as written.
#[derive(Debug)]
pub struct TraitDecl {
    pub name: String,
    pub public: bool,
    pub type_params: Vec<TypeParamDecl>,
    pub methods: Vec<TraitMethodDecl>,
}

/// The first fault among the first `n` trait methods: each one's bounds,
/// then its signature.
pub open spec fn trait_method_list_fault(s: Scope, traits: Seq<Definition>, ms: Seq<TraitMethodDecl>, n: int) -> Option<
    FaultView,
>
    decreases n,
{
    if n <= 0 || n > ms.len() {
        None
    } else {
        either(
            trait_method_list_fault(s, traits, ms, n - 1),
            either(
                bounds_fault(s, traits, ms[n - 1].type_params@, ms[n - 1].type_params@.len() as int),
                signature_fault(s, ms[n - 1].signature),
            ),
        )
    }
}

proof fn lemma_trait_method_list_fault_prefix(s: Scope, traits: Seq<Definition>, ms: Seq<TraitMethodDecl>, k: int, n: int)
    requires
        0 < k <= n <= ms.len(),
        trait_method_list_fault(s, traits, ms, k) is Some,
    ensures
        trait_method_list_fault(s, traits, ms, n) == trait_method_list_fault(s, traits, ms, k),
    decreases n - k,
{
    if n > k {
        lemma_trait_method_list_fault_prefix(s, traits, ms, k, n - 1);
    }
}

/// `out` is `ms` with each method's bounds and signature resolved.
pub open spec fn trait_methods_resolved(s: Scope, traits: Seq<Definition>, ms: Seq<TraitMethodDecl>, out: Seq<TraitMethodDecl>) -> bool {
    out.len() == ms.len() && forall|i: int|
        0 <= i < ms.len() ==> (#[trigger] out[i]).name@ == ms[i].name@ && bounds_resolved(
            s,
            traits,
            ms[i].type_params@,
            out[i].type_params@,
        ) && signature_resolved(s, ms[i].signature, out[i].signature)
}

/// The first fault of a trait declaration: its bounds, then its methods.
pub open spec fn trait_fault(s: Scope, traits: Seq<Definition>, d: TraitDecl) -> Option<FaultView> {
    either(
        bounds_fault(s, traits, d.type_params@, d.type_params@.len() as int),
        trait_method_list_fault(s, traits, d.methods@, d.methods@.len() as int),
    )
}

/// Resolves a trait declaration of the scope's module: its name is
/// qualified, and the bounds and signatures of it and its methods resolved.
pub fn resolve_trait(s: &Scope, traits: &Vec<Definition>, d: &TraitDecl) -> (r: Result<TraitDecl, ResolveFault>)
    requires
        s.wf(),
    ensures
        r is Ok <==> trait_fault(*s, traits@, *d) is None,
        r matches Err(e) ==> trait_fault(*s, traits@, *d) == Some(e@),
        r matches Ok(x) ==> x.name@ == qualified(s.module@, d.name@) && x.public == d.public && bounds_resolved(
            *s,
            traits@,
            d.type_params@,
            x.type_params@,
        ) && trait_methods_resolved(*s, traits@, d.methods@, x.methods@),
{
    let type_params = resolve_bounds(s, traits, &d.type_params)?;
    let mut methods: Vec<TraitMethodDecl> = Vec::new();
    let mut i: usize = 0;
    while i < d.methods.len()
        invariant
            s.wf(),
            i <= d.methods@.len(),
            methods@.len() == i,
            bounds_fault(*s, traits@, d.type_params@, d.type_params@.len() as int) is None,
            bounds_resolved(*s, traits@, d.type_params@, type_params@),
            trait_method_list_fault(*s, traits@, d.methods@, i as int) is None,
            forall|j: int|
                0 <= j < i ==> (#[trigger] methods@[j]).name@ == d.methods@[j].name@ && bounds_resolved(
                    *s,
                    traits@,
                    d.methods@[j].type_params@,
                    methods@[j].type_params@,
                ) && signature_resolved(*s, d.methods@[j].signature, methods@[j].signature),
        decreases d.methods@.len() - i,
    {
        let m = &d.methods[i];
        let tp = match resolve_bounds(s, traits, &m.type_params) {
            Ok(x) => x,
            Err(f) => {
                proof {
                    lemma_trait_method_list_fault_prefix(*s, traits@, d.methods@, i + 1, d.methods@.len() as int);
                }
                return Err(f);
            },
        };
        let sig = match resolve_signature(s, &m.signature) {
            Ok(x) => x,
            Err(f) => {
                proof {
                    lemma_trait_method_list_fault_prefix(*s, traits@, d.methods@, i + 1, d.methods@.len() as int);
                }
                return Err(f);
            },
        };
        methods.push(TraitMethodDecl { name: m.name.clone(), type_params: tp, signature: sig });
        i = i + 1;
    }
    Ok(TraitDecl { name: qualify(s.module.as_str(), d.name.as_str()), public: d.public, type_params, methods })
}

/// An associated type bound in an `impl`: `type Item = T;`.
#[derive(Debug)]
pub struct AssociatedBinding {
    pub name: String,
    pub ty: TypeRef,
}

/// An `impl` block as written.
#[derive(Debug)]
pub struct ImplDecl {
    /// The module the block stands in; set by resolution.
    pub module: String,
    pub target: String,
    pub trait_name: Option<String>,
    pub trait_arguments: Vec<TypeRef>,
    pub type_arguments: Vec<TypeRef>,
    pub associated_types: Vec<AssociatedBinding>,
    pub methods: Vec<FunctionDecl>,
}

/// The first fault among the first `n` associated type bindings.
pub open spec fn binding_list_fault(s: Scope, bs: Seq<AssociatedBinding>, n: int) -> Option<FaultView>
    decreases n,
{
    if n <= 0 || n > bs.len() {
        None
    } else {
        either(binding_list_fault(s, bs, n - 1), type_fault(s, bs[n - 1].ty))
    }
}

proof fn lemma_binding_list_fault_prefix(s: Scope, bs: Seq<AssociatedBinding>, k: int, n: int)
    requires
        0 < k <= n <= bs.len(),
        binding_list_fault(s, bs, k) is Some,
    ensures
        binding_list_fault(s, bs, n) == binding_list_fault(s, bs, k),
    decreases n - k,
{
    if n > k {
        lemma_binding_list_fault_prefix(s, bs, k, n - 1);
    }
}

/// The first fault among the first `n` methods.
pub open spec fn method_list_fault(s: Scope, traits: Seq<Definition>, ms: Seq<FunctionDecl>, n: int) -> Option<FaultView>
    decreases n,
{
    if n <= 0 || n > ms.len() {
        None
    } else {
        either(method_list_fault(s, traits, ms, n - 1), function_fault(s, traits, ms[n - 1]))
    }
}

proof fn lemma_method_list_fault_prefix(s: Scope, traits: Seq<Definition>, ms: Seq<FunctionDecl>, k: int, n: int)
    requires
        0 < k <= n <= ms.len(),
        method_list_fault(s, traits, ms, k) is Some,
    ensures
        method_list_fault(s, traits, ms, n) == method_list_fault(s, traits, ms, k),
    decreases n - k,
{
    if n > k {
        lemma_method_list_fault_prefix(s, traits, ms, k, n - 1);
    }
}

/// `out` is the method `m` with its bounds, signature and body resolved;
/// a method keeps its name.
pub open spec fn method_resolved(s: Scope, traits: Seq<Definition>, m: FunctionDecl, out: FunctionDecl) -> bool {
    &&& out.name@ == m.name@
    &&& out.public == m.public
    &&& bounds_resolved(s, traits, m.type_params@, out.type_params@)
    &&& signature_resolved(s, m.signature, out.signature)
    &&& block_resolved(s, m.body@, out.body@)
}

/// The first fault of an `impl` block: its trait arguments, its target's
/// type arguments, its associated type bindings, then its methods.
pub open spec fn impl_fault(s: Scope, traits: Seq<Definition>, d: ImplDecl) -> Option<FaultView> {
    either(
        type_list_fault(s, d.trait_arguments@, d.trait_arguments@.len() as int),
        either(
            type_list_fault(s, d.type_arguments@, d.type_arguments@.len() as int),
            either(
                binding_list_fault(s, d.associated_types@, d.associated_types@.len() as int),
                method_list_fault(s, traits, d.methods@, d.methods@.len() as int),
            ),
        ),
    )
}

/// Resolves an `impl` block of the scope's module, whose locals hold
/// `self` besides the module's functions: the target and trait are
/// qualified, the written types resolved, and each method's bounds,
/// signature and body resolved.
pub fn resolve_impl(s: &Scope, traits: &Vec<Definition>, d: &ImplDecl) -> (r: Result<ImplDecl, ResolveFault>)
    requires
        s.wf(),
    ensures
        r is Ok <==> impl_fault(*s, traits@, *d) is None,
        r matches Err(e) ==> impl_fault(*s, traits@, *d) == Some(e@),
        r matches Ok(x) ==> {
            &&& x.module@ == s.module@
            &&& x.target@ == type_name_target(s.module@, s.imports@, definition_views(s.types@), d.target@)
            &&& match d.trait_name {
                Some(t) => x.trait_name matches Some(rt) && rt@ == bound_target(*s, traits@, t@),
                None => x.trait_name is None,
            }
            &&& x.trait_arguments@.len() == d.trait_arguments@.len()
            &&& type_list_resolved(*s, d.trait_arguments@, x.trait_arguments@, d.trait_arguments@.len() as int)
            &&& x.type_arguments@.len() == d.type_arguments@.len()
            &&& type_list_resolved(*s, d.type_arguments@, x.type_arguments@, d.type_arguments@.len() as int)
            &&& x.associated_types@.len() == d.associated_types@.len()
            &&& forall|i: int|
                0 <= i < d.associated_types@.len() ==> (#[trigger] x.associated_types@[i]).name@
                    == d.associated_types@[i].name@ && type_resolved(
                    *s,
                    d.associated_types@[i].ty,
                    x.associated_types@[i].ty,
                )
            &&& x.methods@.len() == d.methods@.len()
            &&& forall|i: int|
                0 <= i < d.methods@.len() ==> method_resolved(*s, traits@, d.methods@[i], #[trigger] x.methods@[i])
        },
{
    let module = s.module.as_str();
    let target = resolve_type_name(module, &s.imports, &s.types, d.target.as_str());
    let trait_name = match &d.trait_name {
        Some(t) => Some(resolve_type_name(module, &s.imports, traits, t.as_str())),
        None => None,
    };
    let trait_arguments = resolve_type_list(s, &d.trait_arguments)?;
    let type_arguments = resolve_type_list(s, &d.type_arguments)?;
    let mut associated_types: Vec<AssociatedBinding> = Vec::new();
    let mut i: usize = 0;
    while i < d.associated_types.len()
        invariant
            s.wf(),
            i <= d.associated_types@.len(),
            type_list_fault(*s, d.trait_arguments@, d.trait_arguments@.len() as int) is None,
            type_list_fault(*s, d.type_arguments@, d.type_arguments@.len() as int) is None,
            trait_arguments@.len() == d.trait_arguments@.len(),
            type_list_resolved(*s, d.trait_arguments@, trait_arguments@, d.trait_arguments@.len() as int),
            type_arguments@.len() == d.type_arguments@.len(),
            type_list_resolved(*s, d.type_arguments@, type_arguments@, d.type_arguments@.len() as int),
            associated_types@.len() == i,
            binding_list_fault(*s, d.associated_types@, i as int) is None,
            forall|j: int|
                0 <= j < i ==> (#[trigger] associated_types@[j]).name@ == d.associated_types@[j].name@
                    && type_resolved(*s, d.associated_types@[j].ty, associated_types@[j].ty),
        decreases d.associated_types@.len() - i,
    {
        match resolve_type_ref(s, &d.associated_types[i].ty) {
            Ok(t) => {
                associated_types.push(AssociatedBinding { name: d.associated_types[i].name.clone(), ty: t });
            },
            Err(f) => {
                proof {
                    lemma_binding_list_fault_prefix(*s, d.associated_types@, i + 1, d.associated_types@.len() as int);
                }
                return Err(f);
            },
        }
        i = i + 1;
    }
    let mut methods: Vec<FunctionDecl> = Vec::new();
    let mut k: usize = 0;
    while k < d.methods.len()
        invariant
            s.wf(),
            k <= d.methods@.len(),
            type_list_fault(*s, d.trait_arguments@, d.trait_arguments@.len() as int) is None,
            type_list_fault(*s, d.type_arguments@, d.type_arguments@.len() as int) is None,
            trait_arguments@.len() == d.trait_arguments@.len(),
            type_list_resolved(*s, d.trait_arguments@, trait_arguments@, d.trait_arguments@.len() as int),
            type_arguments@.len() == d.type_arguments@.len(),
            type_list_resolved(*s, d.type_arguments@, type_arguments@, d.type_arguments@.len() as int),
            binding_list_fault(*s, d.associated_types@, d.associated_types@.len() as int) is None,
            associated_types@.len() == d.associated_types@.len(),
            forall|j: int|
                0 <= j < d.associated_types@.len() ==> (#[trigger] associated_types@[j]).name@
                    == d.associated_types@[j].name@ && type_resolved(*s, d.associated_types@[j].ty, associated_types@[j].ty),
            methods@.len() == k,
            method_list_fault(*s, traits@, d.methods@, k as int) is None,
            forall|j: int| 0 <= j < k ==> method_resolved(*s, traits@, d.methods@[j], #[trigger] methods@[j]),
        decreases d.methods@.len() - k,
    {
        let m = &d.methods[k];
        let resolved = match resolve_function(s, traits, m) {
            Ok(x) => x,
            Err(f) => {
                proof {
                    lemma_method_list_fault_prefix(*s, traits@, d.methods@, k + 1, d.methods@.len() as int);
                }
                return Err(f);
            },
        };
        methods.push(
            FunctionDecl {
                name: m.name.clone(),
                public: resolved.public,
                type_params: resolved.type_params,
                signature: resolved.signature,
                body: resolved.body,
            },
        );
        k = k + 1;
    }
    Ok(
        ImplDecl {
            module: s.module.clone(),
            target,
            trait_name,
            trait_arguments,
            type_arguments,
            associated_types,
            methods,
        },
    )
}

/// The output built-ins `print`, `println` and `length` resolve to
/// themselves, in any scope, and refuse explicit type arguments.
pub proof fn output_builtins_resolve_to_themselves(s: Scope)
    ensures
        call_target(s, "print"@, false) == Ok::<Seq<char>, FaultView>("print"@),
        call_target(s, "println"@, false) == Ok::<Seq<char>, FaultView>("println"@),
        call_target(s, "length"@, false) == Ok::<Seq<char>, FaultView>("length"@),
        call_target(s, "print"@, true) == Err::<Seq<char>, FaultView>(FaultView::ExplicitTypeArguments("print"@)),
        call_target(s, "println"@, true) == Err::<Seq<char>, FaultView>(
            FaultView::ExplicitTypeArguments("println"@),
        ),
        call_target(s, "length"@, true) == Err::<Seq<char>, FaultView>(FaultView::ExplicitTypeArguments("length"@)),
{
}

/// The functions of `std.mem` that the compiler provides are exactly
/// `alloc`, `free`, `create`, `destroy`, `size_of`, `align_of`, `copy`,
/// `is_valid_utf8`, `view`, `view_const`, `cast_ptr` and `cast_const_ptr`;
/// any other name, such as `realloc`, is unknown.
pub proof fn std_mem_functions_are_fixed()
    ensures
        std_mem_intrinsic("alloc"@),
        std_mem_intrinsic("free"@),
        std_mem_intrinsic("create"@),
        std_mem_intrinsic("destroy"@),
        std_mem_intrinsic("size_of"@),
        std_mem_intrinsic("align_of"@),
        std_mem_intrinsic("copy"@),
        std_mem_intrinsic("is_valid_utf8"@),
        std_mem_intrinsic("view"@),
        std_mem_intrinsic("view_const"@),
        std_mem_intrinsic("cast_ptr"@),
        std_mem_intrinsic("cast_const_ptr"@),
        !std_mem_intrinsic("realloc"@),
{
    reveal_strlit("realloc");
    reveal_strlit("alloc");
    reveal_strlit("free");
    reveal_strlit("create");
    reveal_strlit("destroy");
    reveal_strlit("size_of");
    reveal_strlit("align_of");
    reveal_strlit("copy");
    reveal_strlit("is_valid_utf8");
    reveal_strlit("view");
    reveal_strlit("view_const");
    reveal_strlit("cast_ptr");
    reveal_strlit("cast_const_ptr");
    assert("realloc"@[0] != "destroy"@[0]);
    assert("realloc"@[0] != "size_of"@[0]);
    assert("realloc"@.len() != "alloc"@.len());
    assert("realloc"@ != "alloc"@);
    assert("realloc"@.len() != "free"@.len());
    assert("realloc"@ != "free"@);
    assert("realloc"@.len() != "create"@.len());
    assert("realloc"@ != "create"@);
    assert("realloc"@ != "destroy"@);
    assert("realloc"@ != "size_of"@);
    assert("realloc"@.len() != "align_of"@.len());
    assert("realloc"@ != "align_of"@);
    assert("realloc"@.len() != "copy"@.len());
    assert("realloc"@ != "copy"@);
    assert("realloc"@.len() != "is_valid_utf8"@.len());
    assert("realloc"@ != "is_valid_utf8"@);
    assert("realloc"@.len() != "view"@.len());
    assert("realloc"@ != "view"@);
    assert("realloc"@.len() != "view_const"@.len());
    assert("realloc"@ != "view_const"@);
    assert("realloc"@.len() != "cast_ptr"@.len());
    assert("realloc"@ != "cast_ptr"@);
    assert("realloc"@.len() != "cast_const_ptr"@.len());
    assert("realloc"@ != "cast_const_ptr"@);
}

} // verus!
