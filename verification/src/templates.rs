//! Declaration rules of template collection: the type parameters a
//! declaration introduces, and the header of an `impl` block checked
//! against the struct or enum it implements for.
use vstd::prelude::*;

use crate::text::{chars_of, decimal, matches_at, push_decimal, push_str, str_eq, string_of};

verus! {

/// A type as written in source.
#[derive(Debug)]
pub enum TypeRef {
    Name { name: String, arguments: Vec<TypeRef> },
    Ptr { pointee: Box<TypeRef>, mutable: bool },
    Slice { element: Box<TypeRef>, mutable: bool },
    Array { element: Box<TypeRef>, length: u64 },
}

/// A declared type parameter and its trait bound, if any.
#[derive(Debug, Clone)]
pub struct TypeParamDecl {
    pub name: String,
    pub bound: Option<String>,
}

/// The first type parameter of `params` whose name an earlier one has.
pub open spec fn repeated_param(params: Seq<TypeParamDecl>, n: int) -> Option<int>
    decreases n,
{
    if n <= 0 {
        None
    } else if repeated_param(params, n - 1) is Some {
        repeated_param(params, n - 1)
    } else if exists|j: int| 0 <= j < n - 1 && (#[trigger] params[j]).name@ == params[n - 1].name@ {
        Some(n - 1)
    } else {
        None
    }
}

/// The names of a declaration's type parameters, in order; `Err(i)` when
/// parameter `i` repeats an earlier name ("type parameter `T` is already
/// declared").
pub fn type_param_names(params: &Vec<TypeParamDecl>) -> (r: Result<Vec<String>, usize>)
    ensures
        r is Err <==> repeated_param(params@, params@.len() as int) is Some,
        r matches Err(i) ==> repeated_param(params@, params@.len() as int) == Some(i as int),
        r matches Ok(names) ==> names@.len() == params@.len() && forall|i: int|
            0 <= i < params@.len() ==> (#[trigger] names@[i])@ == params@[i].name@,
{
    let mut names: Vec<String> = Vec::new();
    let mut i: usize = 0;
    while i < params.len()
        invariant
            i <= params@.len(),
            names@.len() == i,
            forall|k: int| 0 <= k < i ==> (#[trigger] names@[k])@ == params@[k].name@,
            repeated_param(params@, i as int) is None,
        decreases params@.len() - i,
    {
        let mut j: usize = 0;
        while j < i
            invariant
                j <= i < params@.len(),
                names@.len() == i,
                forall|k: int| 0 <= k < i ==> (#[trigger] names@[k])@ == params@[k].name@,
                forall|k: int| 0 <= k < j ==> (#[trigger] params@[k]).name@ != params@[i as int].name@,
                repeated_param(params@, i as int) is None,
            decreases i - j,
        {
            if str_eq(names[j].as_str(), params[i].name.as_str()) {
                proof {
                    assert(params@[j as int].name@ == params@[i as int].name@);
                    assert(repeated_param(params@, i + 1) == Some(i as int));
                    lemma_repeated_stays(params@, i as int + 1, params@.len() as int);
                }
                return Err(i);
            }
            j = j + 1;
        }
        let mut name = String::new();
        push_str(&mut name, params[i].name.as_str());
        names.push(name);
        i = i + 1;
    }
    Ok(names)
}

proof fn lemma_repeated_stays(params: Seq<TypeParamDecl>, n: int, m: int)
    requires
        0 < n <= m,
        repeated_param(params, n) is Some,
    ensures
        repeated_param(params, m) == repeated_param(params, n),
    decreases m - n,
{
    if m > n {
        lemma_repeated_stays(params, n, m - 1);
    }
}

/// The message for a repeated type parameter.
pub fn repeated_param_message(name: &str) -> (r: String)
    ensures
        r@ == "type parameter `"@ + name@ + "` is already declared"@,
{
    let mut m = String::new();
    push_str(&mut m, "type parameter `");
    push_str(&mut m, name);
    push_str(&mut m, "` is already declared");
    m
}

/// The header of an `impl` block.
#[derive(Debug)]
pub struct ImplHeader {
    /// The struct or enum implemented for.
    pub target: String,
    pub type_params: Vec<TypeParamDecl>,
    /// The arguments written on the target type.
    pub type_arguments: Vec<TypeRef>,
    /// How many arguments are written on the trait.
    pub trait_arguments: usize,
    /// For each method: its name and how many type parameters it declares.
    pub methods: Vec<(String, usize)>,
}

/// What is wrong with an `impl` header, and where.
#[derive(Debug, Clone, PartialEq, Eq)]
pub enum ImplHeaderFault {
    /// Type parameter `index` has a bound.
    BoundedParameter { index: usize },
    /// Method `index` declares type parameters.
    GenericMethod { index: usize, method: String },
    /// The trait has arguments.
    TraitArguments,
    /// The target is one of the impl's own type parameters.
    Blanket,
    /// No struct or enum has the target's name.
    UnknownType { name: String },
    /// The target is written with arguments but the impl has no parameters.
    ConcreteTarget,
    /// The impl declares another number of parameters than the type.
    ParameterCount { name: String, declared: usize, expected: usize },
    /// The target has another number of arguments than the type.
    ArgumentCount { name: String, expected: usize, given: usize },
    /// Target argument `index` is not the impl's parameter `index`.
    ArgumentOrder { index: usize },
}

impl ImplHeaderFault {
    /// The diagnostic text.
    pub fn message(&self) -> (r: String)
        ensures
            r@ == impl_fault_text(*self),
    {
        let mut m = String::new();
        match self {
            ImplHeaderFault::BoundedParameter { .. } => push_str(
                &mut m,
                "bounds on impl type parameters are not supported yet; declare the bound on the type instead",
            ),
            ImplHeaderFault::GenericMethod { method, .. } => {
                push_str(&mut m, "method `");
                push_str(&mut m, method.as_str());
                push_str(&mut m, "` cannot declare its own type parameters yet");
            },
            ImplHeaderFault::TraitArguments => push_str(&mut m, "generic trait arguments are not supported yet"),
            ImplHeaderFault::Blanket => push_str(
                &mut m,
                "blanket impl is not supported; the impl target must be a named struct or enum",
            ),
            ImplHeaderFault::UnknownType { name } => {
                push_str(&mut m, "unknown type `");
                push_str(&mut m, name.as_str());
                push_str(&mut m, "`");
            },
            ImplHeaderFault::ConcreteTarget => push_str(
                &mut m,
                "concrete impl targets for generic types are not supported; declare impl type parameters and use them as target arguments",
            ),
            ImplHeaderFault::ParameterCount { name, declared, expected } => {
                push_str(&mut m, "impl for `");
                push_str(&mut m, name.as_str());
                push_str(&mut m, "` declares ");
                push_decimal(&mut m, *declared as u64);
                push_str(&mut m, " type parameters but `");
                push_str(&mut m, name.as_str());
                push_str(&mut m, "` expects ");
                push_decimal(&mut m, *expected as u64);
            },
            ImplHeaderFault::ArgumentCount { name, expected, given } => {
                push_str(&mut m, "`");
                push_str(&mut m, name.as_str());
                push_str(&mut m, "` expects ");
                push_decimal(&mut m, *expected as u64);
                push_str(&mut m, " type arguments but ");
                push_decimal(&mut m, *given as u64);
                push_str(&mut m, " were provided");
            },
            ImplHeaderFault::ArgumentOrder { .. } => push_str(
                &mut m,
                "impl target must use the impl type parameters in order; specialization, reordering, repeated and nested arguments are not supported",
            ),
        }
        m
    }
}

/// How an `impl` header fault reads.
pub open spec fn impl_fault_text(f: ImplHeaderFault) -> Seq<char> {
    match f {
        ImplHeaderFault::BoundedParameter { .. } =>
            "bounds on impl type parameters are not supported yet; declare the bound on the type instead"@,
        ImplHeaderFault::GenericMethod { method, .. } => "method `"@ + method@
            + "` cannot declare its own type parameters yet"@,
        ImplHeaderFault::TraitArguments => "generic trait arguments are not supported yet"@,
        ImplHeaderFault::Blanket => "blanket impl is not supported; the impl target must be a named struct or enum"@,
        ImplHeaderFault::UnknownType { name } => "unknown type `"@ + name@ + "`"@,
        ImplHeaderFault::ConcreteTarget =>
            "concrete impl targets for generic types are not supported; declare impl type parameters and use them as target arguments"@,
        ImplHeaderFault::ParameterCount { name, declared, expected } => "impl for `"@ + name@ + "` declares "@
            + decimal(declared as nat) + " type parameters but `"@ + name@ + "` expects "@ + decimal(
            expected as nat,
        ),
        ImplHeaderFault::ArgumentCount { name, expected, given } => "`"@ + name@ + "` expects "@ + decimal(
            expected as nat,
        ) + " type arguments but "@ + decimal(given as nat) + " were provided"@,
        ImplHeaderFault::ArgumentOrder { .. } =>
            "impl target must use the impl type parameters in order; specialization, reordering, repeated and nested arguments are not supported"@,
    }
}

/// The number of type parameters of the first entry named `name` in a
/// table of declarations and their parameter counts.
pub open spec fn params_of(table: Seq<(String, usize)>, name: Seq<char>) -> Option<usize>
    decreases table.len(),
{
    if table.len() == 0 {
        None
    } else if table[0].0@ == name {
        Some(table[0].1)
    } else {
        params_of(table.drop_first(), name)
    }
}

/// Target argument `i` is the impl's parameter `i`, written bare.
pub open spec fn argument_in_order(h: ImplHeader, i: int) -> bool {
    h.type_arguments@[i] matches TypeRef::Name { name, arguments } && arguments@.len() == 0 && name@
        == h.type_params@[i].name@
}

/// The first `impl` header fault, checked in this order: bounded
/// parameters, generic methods, trait arguments, a blanket target, an
/// unknown target (structs are looked up before enums), a concrete target,
/// the parameter count, the argument count, and the order of the
/// arguments.
pub open spec fn impl_header_fault(h: ImplHeader, structs: Seq<(String, usize)>, enums: Seq<(String, usize)>) -> Option<
    ImplHeaderFault,
> {
    let declared = if params_of(structs, h.target@) is Some {
        params_of(structs, h.target@)
    } else {
        params_of(enums, h.target@)
    };
    if exists|i: int| 0 <= i < h.type_params@.len() && (#[trigger] h.type_params@[i]).bound is Some {
        let i = choose|i: int|
            0 <= i < h.type_params@.len() && (#[trigger] h.type_params@[i]).bound is Some && forall|k: int|
                0 <= k < i ==> (#[trigger] h.type_params@[k]).bound is None;
        Some(ImplHeaderFault::BoundedParameter { index: i as usize })
    } else if exists|i: int| 0 <= i < h.methods@.len() && (#[trigger] h.methods@[i]).1 > 0 {
        let i = choose|i: int|
            0 <= i < h.methods@.len() && (#[trigger] h.methods@[i]).1 > 0 && forall|k: int|
                0 <= k < i ==> (#[trigger] h.methods@[k]).1 == 0;
        Some(ImplHeaderFault::GenericMethod { index: i as usize, method: h.methods@[i].0 })
    } else if h.trait_arguments > 0 {
        Some(ImplHeaderFault::TraitArguments)
    } else if exists|i: int| 0 <= i < h.type_params@.len() && (#[trigger] h.type_params@[i]).name@ == h.target@ {
        Some(ImplHeaderFault::Blanket)
    } else if declared is None {
        Some(ImplHeaderFault::UnknownType { name: h.target })
    } else if h.type_params@.len() == 0 && h.type_arguments@.len() != 0 {
        Some(ImplHeaderFault::ConcreteTarget)
    } else if h.type_params@.len() != declared->0 {
        Some(
            ImplHeaderFault::ParameterCount {
                name: h.target,
                declared: h.type_params@.len() as usize,
                expected: declared->0,
            },
        )
    } else if h.type_arguments@.len() != declared->0 {
        Some(
            ImplHeaderFault::ArgumentCount {
                name: h.target,
                expected: declared->0,
                given: h.type_arguments@.len() as usize,
            },
        )
    } else if exists|i: int| 0 <= i < h.type_arguments@.len() && !argument_in_order(h, i) {
        let i = choose|i: int|
            0 <= i < h.type_arguments@.len() && !argument_in_order(h, i) && forall|k: int|
                0 <= k < i ==> argument_in_order(h, k);
        Some(ImplHeaderFault::ArgumentOrder { index: i as usize })
    } else {
        None
    }
}

/// Two faults that say the same: same kind, places and texts.
pub open spec fn same_fault(a: ImplHeaderFault, b: ImplHeaderFault) -> bool {
    match (a, b) {
        (ImplHeaderFault::BoundedParameter { index: x }, ImplHeaderFault::BoundedParameter { index: y }) => x == y,
        (ImplHeaderFault::GenericMethod { index: x, method: m }, ImplHeaderFault::GenericMethod { index: y, method: n }) =>
            x == y && m@ == n@,
        (ImplHeaderFault::TraitArguments, ImplHeaderFault::TraitArguments) => true,
        (ImplHeaderFault::Blanket, ImplHeaderFault::Blanket) => true,
        (ImplHeaderFault::UnknownType { name: m }, ImplHeaderFault::UnknownType { name: n }) => m@ == n@,
        (ImplHeaderFault::ConcreteTarget, ImplHeaderFault::ConcreteTarget) => true,
        (
            ImplHeaderFault::ParameterCount { name: m, declared: d, expected: e },
            ImplHeaderFault::ParameterCount { name: n, declared: d2, expected: e2 },
        ) => m@ == n@ && d == d2 && e == e2,
        (
            ImplHeaderFault::ArgumentCount { name: m, expected: e, given: g },
            ImplHeaderFault::ArgumentCount { name: n, expected: e2, given: g2 },
        ) => m@ == n@ && e == e2 && g == g2,
        (ImplHeaderFault::ArgumentOrder { index: x }, ImplHeaderFault::ArgumentOrder { index: y }) => x == y,
        _ => false,
    }
}

fn lookup_params(table: &Vec<(String, usize)>, name: &str) -> (r: Option<usize>)
    ensures
        r == params_of(table@, name@),
{
    let mut i: usize = 0;
    assert(table@.skip(0) =~= table@);
    while i < table.len()
        invariant
            i <= table@.len(),
            params_of(table@, name@) == params_of(table@.skip(i as int), name@),
        decreases table@.len() - i,
    {
        assert(table@.skip(i as int)[0] == table@[i as int]);
        assert(table@.skip(i as int).drop_first() =~= table@.skip(i + 1));
        if str_eq(table[i].0.as_str(), name) {
            return Some(table[i].1);
        }
        i = i + 1;
    }
    None
}

fn copy(s: &str) -> (r: String)
    ensures
        r@ == s@,
{
    let mut r = String::new();
    push_str(&mut r, s);
    r
}

/// Checks the header of an `impl` block against the structs and enums
/// (each with its number of type parameters); the first fault, if any.
pub fn validate_impl_header(
    h: &ImplHeader,
    structs: &Vec<(String, usize)>,
    enums: &Vec<(String, usize)>,
) -> (r: Option<ImplHeaderFault>)
    ensures
        r is Some <==> impl_header_fault(*h, structs@, enums@) is Some,
        r matches Some(f) ==> same_fault(f, impl_header_fault(*h, structs@, enums@)->0),
{
    let mut i: usize = 0;
    while i < h.type_params.len()
        invariant
            i <= h.type_params@.len(),
            forall|k: int| 0 <= k < i ==> (#[trigger] h.type_params@[k]).bound is None,
        decreases h.type_params@.len() - i,
    {
        if h.type_params[i].bound.is_some() {
            proof {
                let c = choose|c: int|
                    0 <= c < h.type_params@.len() && (#[trigger] h.type_params@[c]).bound is Some && forall|k: int|
                        0 <= k < c ==> (#[trigger] h.type_params@[k]).bound is None;
                assert(0 <= i < h.type_params@.len() && h.type_params@[i as int].bound is Some && forall|k: int|
                    0 <= k < i ==> (#[trigger] h.type_params@[k]).bound is None);
                if c < i {
                    assert(h.type_params@[c].bound is None);
                } else if c > i {
                    assert(h.type_params@[i as int].bound is None);
                }
            }
            return Some(ImplHeaderFault::BoundedParameter { index: i });
        }
        i = i + 1;
    }
    let mut i: usize = 0;
    while i < h.methods.len()
        invariant
            i <= h.methods@.len(),
            forall|k: int| 0 <= k < h.type_params@.len() ==> (#[trigger] h.type_params@[k]).bound is None,
            forall|k: int| 0 <= k < i ==> (#[trigger] h.methods@[k]).1 == 0,
        decreases h.methods@.len() - i,
    {
        if h.methods[i].1 > 0 {
            proof {
                let c = choose|c: int|
                    0 <= c < h.methods@.len() && (#[trigger] h.methods@[c]).1 > 0 && forall|k: int|
                        0 <= k < c ==> (#[trigger] h.methods@[k]).1 == 0;
                assert(0 <= i < h.methods@.len() && h.methods@[i as int].1 > 0 && forall|k: int|
                    0 <= k < i ==> (#[trigger] h.methods@[k]).1 == 0);
                if c < i {
                    assert(h.methods@[c].1 == 0);
                } else if c > i {
                    assert(h.methods@[i as int].1 == 0);
                }
            }
            return Some(ImplHeaderFault::GenericMethod { index: i, method: copy(h.methods[i].0.as_str()) });
        }
        i = i + 1;
    }
    if h.trait_arguments > 0 {
        return Some(ImplHeaderFault::TraitArguments);
    }
    let mut i: usize = 0;
    while i < h.type_params.len()
        invariant
            i <= h.type_params@.len(),
            forall|k: int| 0 <= k < h.type_params@.len() ==> (#[trigger] h.type_params@[k]).bound is None,
            forall|k: int| 0 <= k < h.methods@.len() ==> (#[trigger] h.methods@[k]).1 == 0,
            h.trait_arguments == 0,
            forall|k: int| 0 <= k < i ==> (#[trigger] h.type_params@[k]).name@ != h.target@,
        decreases h.type_params@.len() - i,
    {
        if str_eq(h.type_params[i].name.as_str(), h.target.as_str()) {
            return Some(ImplHeaderFault::Blanket);
        }
        i = i + 1;
    }
    let declared = match lookup_params(structs, h.target.as_str()) {
        Some(n) => n,
        None => match lookup_params(enums, h.target.as_str()) {
            Some(n) => n,
            None => {
                return Some(ImplHeaderFault::UnknownType { name: copy(h.target.as_str()) });
            },
        },
    };
    if h.type_params.len() == 0 && h.type_arguments.len() != 0 {
        return Some(ImplHeaderFault::ConcreteTarget);
    }
    if h.type_params.len() != declared {
        return Some(
            ImplHeaderFault::ParameterCount {
                name: copy(h.target.as_str()),
                declared: h.type_params.len(),
                expected: declared,
            },
        );
    }
    if h.type_arguments.len() != declared {
        return Some(
            ImplHeaderFault::ArgumentCount {
                name: copy(h.target.as_str()),
                expected: declared,
                given: h.type_arguments.len(),
            },
        );
    }
    let mut i: usize = 0;
    while i < h.type_arguments.len()
        invariant
            i <= h.type_arguments@.len(),
            h.type_arguments@.len() == h.type_params@.len(),
            forall|k: int| 0 <= k < h.type_params@.len() ==> (#[trigger] h.type_params@[k]).bound is None,
            forall|k: int| 0 <= k < h.methods@.len() ==> (#[trigger] h.methods@[k]).1 == 0,
            h.trait_arguments == 0,
            forall|k: int| 0 <= k < h.type_params@.len() ==> (#[trigger] h.type_params@[k]).name@ != h.target@,
            (if params_of(structs@, h.target@) is Some {
                params_of(structs@, h.target@)
            } else {
                params_of(enums@, h.target@)
            }) == Some(declared),
            !(h.type_params@.len() == 0 && h.type_arguments@.len() != 0),
            h.type_params@.len() == declared,
            forall|k: int| 0 <= k < i ==> argument_in_order(*h, k),
        decreases h.type_arguments@.len() - i,
    {
        let ok = match &h.type_arguments[i] {
            TypeRef::Name { name, arguments } => arguments.len() == 0 && str_eq(
                name.as_str(),
                h.type_params[i].name.as_str(),
            ),
            _ => false,
        };
        if !ok {
            proof {
                assert(!argument_in_order(*h, i as int));
                let c = choose|c: int|
                    0 <= c < h.type_arguments@.len() && !argument_in_order(*h, c) && forall|k: int|
                        0 <= k < c ==> argument_in_order(*h, k);
                assert(0 <= i < h.type_arguments@.len() && !argument_in_order(*h, i as int) && forall|k: int|
                    0 <= k < i ==> argument_in_order(*h, k));
                if c < i {
                    assert(argument_in_order(*h, c));
                } else if c > i {
                    assert(argument_in_order(*h, i as int));
                }
            }
            return Some(ImplHeaderFault::ArgumentOrder { index: i });
        }
        i = i + 1;
    }
    None
}

// ---------------------------------------------------------------------------
// Trait method signatures.
// ---------------------------------------------------------------------------

/// The type an `impl` binds to associated type `name` (the last binding of
/// that name, as a map built from the bindings keeps it).
pub open spec fn bound_type(b: Seq<(String, TypeRef)>, name: Seq<char>) -> Option<TypeRef>
    decreases b.len(),
{
    if b.len() == 0 {
        None
    } else if b.last().0@ == name {
        Some(b.last().1)
    } else {
        bound_type(b.drop_last(), name)
    }
}

/// `name` written as `Self::<rest>`: the associated type it names.
pub open spec fn self_associated(name: Seq<char>) -> Option<Seq<char>> {
    if name.len() >= 6 && name.take(6) == "Self::"@ {
        Some(name.skip(6))
    } else {
        None
    }
}

/// The associated types of `Self` that `t` names, at any depth.
pub open spec fn mentions(t: TypeRef, assoc: Seq<char>) -> bool
    decreases t,
{
    match t {
        TypeRef::Name { name, arguments } => self_associated(name@) == Some(assoc) || exists|i: int|
            0 <= i < arguments@.len() && mentions(#[trigger] arguments@[i], assoc),
        TypeRef::Ptr { pointee, .. } => mentions(*pointee, assoc),
        TypeRef::Slice { element, .. } => mentions(*element, assoc),
        TypeRef::Array { element, .. } => mentions(*element, assoc),
    }
}

/// `rank` orders the bindings: a bound type only names associated types of
/// lower rank, so expanding bindings comes to an end.
pub open spec fn ranks_bindings(b: Seq<(String, TypeRef)>, rank: spec_fn(Seq<char>) -> nat) -> bool {
    forall|x: Seq<char>, y: Seq<char>|
        #![trigger bound_type(b, x), mentions(bound_type(b, x)->0, y)]
        bound_type(b, x) is Some && mentions(bound_type(b, x)->0, y) && bound_type(b, y) is Some ==> rank(y)
            < rank(x)
}

/// The bindings never lead back to themselves.
pub open spec fn bindings_acyclic(b: Seq<(String, TypeRef)>) -> bool {
    exists|rank: spec_fn(Seq<char>) -> nat| ranks_bindings(b, rank)
}

/// A ranking of acyclic bindings.
pub open spec fn binding_rank(b: Seq<(String, TypeRef)>) -> spec_fn(Seq<char>) -> nat {
    choose|rank: spec_fn(Seq<char>) -> nat| ranks_bindings(b, rank)
}

/// The canonical text of `t` inside an `impl` for `target` with `bindings`:
/// `Self` becomes the target, `Self::A` the canonical text of the type
/// bound to `A` (or `?Self::A` when unbound), and every other type is
/// written out (`name<args>`, `*T` / `*const T`, `[]T` / `[]const T`,
/// `[T;n]`). `level` bounds the ranks of the bindings still to expand.
pub open spec fn canonical(
    t: TypeRef,
    target: Seq<char>,
    b: Seq<(String, TypeRef)>,
    rank: spec_fn(Seq<char>) -> nat,
    level: nat,
) -> Seq<char>
    decreases level, t,
{
    match t {
        TypeRef::Name { name, arguments } => if name@ == "Self"@ && arguments@.len() == 0 {
            target
        } else if self_associated(name@) is Some {
            let assoc = self_associated(name@)->0;
            match bound_type(b, assoc) {
                Some(bound) => if rank(assoc) < level {
                    canonical(bound, target, b, rank, rank(assoc))
                } else {
                    Seq::empty()
                },
                None => "?Self::"@ + assoc,
            }
        } else if arguments@.len() == 0 {
            name@
        } else {
            name@ + "<"@ + canonical_list(arguments@, target, b, rank, level, arguments@.len() as int) + ">"@
        },
        TypeRef::Ptr { pointee, mutable } => "*"@ + (if mutable {
            Seq::empty()
        } else {
            "const "@
        }) + canonical(*pointee, target, b, rank, level),
        TypeRef::Slice { element, mutable } => "[]"@ + (if mutable {
            Seq::empty()
        } else {
            "const "@
        }) + canonical(*element, target, b, rank, level),
        TypeRef::Array { element, length } => "["@ + canonical(*element, target, b, rank, level) + ";"@
            + decimal(length as nat) + "]"@,
    }
}

/// The canonical texts of the first `n` arguments, joined with `,`.
pub open spec fn canonical_list(
    args: Seq<TypeRef>,
    target: Seq<char>,
    b: Seq<(String, TypeRef)>,
    rank: spec_fn(Seq<char>) -> nat,
    level: nat,
    n: int,
) -> Seq<char>
    decreases level, args, n,
{
    if n <= 0 || n > args.len() {
        Seq::empty()
    } else if n == 1 {
        canonical(args[0], target, b, rank, level)
    } else {
        canonical_list(args, target, b, rank, level, n - 1) + ","@ + canonical(args[n - 1], target, b, rank, level)
    }
}

/// A rank above that of every bound associated type `t` names.
pub open spec fn rank_above(t: TypeRef, b: Seq<(String, TypeRef)>, rank: spec_fn(Seq<char>) -> nat) -> nat
    decreases t,
{
    match t {
        TypeRef::Name { name, arguments } => {
            let own: nat = match self_associated(name@) {
                Some(a) => if bound_type(b, a) is Some {
                    rank(a) + 1
                } else {
                    0
                },
                None => 0,
            };
            own + rank_above_list(arguments@, b, rank, arguments@.len() as int)
        },
        TypeRef::Ptr { pointee, .. } => rank_above(*pointee, b, rank),
        TypeRef::Slice { element, .. } => rank_above(*element, b, rank),
        TypeRef::Array { element, .. } => rank_above(*element, b, rank),
    }
}

pub open spec fn rank_above_list(args: Seq<TypeRef>, b: Seq<(String, TypeRef)>, rank: spec_fn(Seq<char>) -> nat, n: int) -> nat
    decreases args, n,
{
    if n <= 0 || n > args.len() {
        0
    } else {
        rank_above_list(args, b, rank, n - 1) + rank_above(args[n - 1], b, rank)
    }
}

proof fn lemma_rank_above(t: TypeRef, b: Seq<(String, TypeRef)>, rank: spec_fn(Seq<char>) -> nat, y: Seq<char>)
    requires
        mentions(t, y),
        bound_type(b, y) is Some,
    ensures
        rank(y) < rank_above(t, b, rank),
    decreases t,
{
    match t {
        TypeRef::Name { name, arguments } => {
            if self_associated(name@) != Some(y) {
                let i = choose|i: int| 0 <= i < arguments@.len() && mentions(#[trigger] arguments@[i], y);
                lemma_rank_above(arguments@[i], b, rank, y);
                lemma_rank_above_list(arguments@, b, rank, i, arguments@.len() as int);
            }
        },
        TypeRef::Ptr { pointee, .. } => lemma_rank_above(*pointee, b, rank, y),
        TypeRef::Slice { element, .. } => lemma_rank_above(*element, b, rank, y),
        TypeRef::Array { element, .. } => lemma_rank_above(*element, b, rank, y),
    }
}

proof fn lemma_rank_above_list(args: Seq<TypeRef>, b: Seq<(String, TypeRef)>, rank: spec_fn(Seq<char>) -> nat, i: int, n: int)
    requires
        0 <= i < n <= args.len(),
    ensures
        rank_above(args[i], b, rank) <= rank_above_list(args, b, rank, n),
    decreases n,
{
    if i < n - 1 {
        lemma_rank_above_list(args, b, rank, i, n - 1);
    }
}

fn associated_of(name: &str) -> (r: Option<String>)
    ensures
        r is Some <==> self_associated(name@) is Some,
        r matches Some(a) ==> a@ == self_associated(name@)->0,
{
    let chars = chars_of(name);
    let prefix = chars_of("Self::");
    proof {
        reveal_strlit("Self::");
    }
    if chars.len() >= 6 && matches_at(&chars, &prefix, 0) {
        assert(chars@.subrange(0, 6) =~= chars@.take(6));
        let a = string_of(&chars, 6, chars.len());
        assert(chars@.subrange(6, chars@.len() as int) =~= chars@.skip(6));
        Some(a)
    } else {
        proof {
            if chars@.len() >= 6 {
                assert(chars@.subrange(0, 6) =~= chars@.take(6));
            }
        }
        None
    }
}

fn lookup_bound<'a>(b: &'a Vec<(String, TypeRef)>, name: &str) -> (r: Option<&'a TypeRef>)
    ensures
        r is Some <==> bound_type(b@, name@) is Some,
        r matches Some(t) ==> *t == bound_type(b@, name@)->0,
{
    let mut i: usize = b.len();
    assert(b@.take(i as int) =~= b@);
    while i > 0
        invariant
            i <= b@.len(),
            bound_type(b@, name@) == bound_type(b@.take(i as int), name@),
        decreases i,
    {
        assert(b@.take(i as int).last() == b@[i - 1]);
        assert(b@.take(i as int).drop_last() =~= b@.take(i - 1));
        if str_eq(b[i - 1].0.as_str(), name) {
            return Some(&b[i - 1].1);
        }
        i = i - 1;
    }
    None
}

fn canonical_text(
    t: &TypeRef,
    target: &str,
    b: &Vec<(String, TypeRef)>,
    Ghost(rank): Ghost<spec_fn(Seq<char>) -> nat>,
    Ghost(level): Ghost<nat>,
) -> (r: String)
    requires
        ranks_bindings(b@, rank),
        forall|y: Seq<char>| mentions(*t, y) && bound_type(b@, y) is Some ==> rank(y) < level,
    ensures
        r@ == canonical(*t, target@, b@, rank, level),
    decreases level, *t,
{
    let mut out = String::new();
    match t {
        TypeRef::Name { name, arguments } => {
            proof {
                reveal_strlit("Self");
            }
            if arguments.len() == 0 && str_eq(name.as_str(), "Self") {
                push_str(&mut out, target);
                return out;
            }
            match associated_of(name.as_str()) {
                Some(assoc) => {
                    assert(mentions(*t, assoc@));
                    match lookup_bound(b, assoc.as_str()) {
                        Some(bound) => {
                            proof {
                                assert forall|y: Seq<char>|
                                    mentions(*bound, y) && bound_type(b@, y) is Some implies rank(y) < rank(assoc@) by {
                                    assert(bound_type(b@, assoc@) is Some && mentions(bound_type(b@, assoc@)->0, y));
                                }
                            }
                            return canonical_text(bound, target, b, Ghost(rank), Ghost(rank(assoc@)));
                        },
                        None => {
                            push_str(&mut out, "?Self::");
                            push_str(&mut out, assoc.as_str());
                            return out;
                        },
                    }
                },
                None => {},
            }
            push_str(&mut out, name.as_str());
            if arguments.len() == 0 {
                return out;
            }
            push_str(&mut out, "<");
            let ghost start = out@;
            let mut i: usize = 0;
            while i < arguments.len()
                invariant
                    i <= arguments@.len(),
                    *t == (TypeRef::Name { name: *name, arguments: *arguments }),
                    ranks_bindings(b@, rank),
                    forall|y: Seq<char>| mentions(*t, y) && bound_type(b@, y) is Some ==> rank(y) < level,
                    out@ == start + canonical_list(arguments@, target@, b@, rank, level, i as int),
                decreases arguments@.len() - i,
            {
                if i > 0 {
                    push_str(&mut out, ",");
                }
                proof {
                    assert forall|y: Seq<char>|
                        mentions(arguments@[i as int], y) && bound_type(b@, y) is Some implies rank(y) < level by {
                        assert(0 <= i < arguments@.len() && mentions(arguments@[i as int], y));
                        let whole = TypeRef::Name { name: *name, arguments: *arguments };
                        assert(whole->Name_arguments@ == arguments@);
                        assert(mentions(whole->Name_arguments@[i as int], y));
                        assert(mentions(whole, y));
                        assert(mentions(*t, y));
                    }
                    assert(decreases_to!(*t => t->Name_arguments));
                    assert(decreases_to!(*arguments => arguments@));
                    assert(decreases_to!(arguments@ => arguments@[i as int]));
                    assert(decreases_to!(*t => arguments@[i as int]));
                }
                let piece = canonical_text(&arguments[i], target, b, Ghost(rank), Ghost(level));
                push_str(&mut out, piece.as_str());
                i = i + 1;
            }
            push_str(&mut out, ">");
            out
        },
        TypeRef::Ptr { pointee, mutable } => {
            push_str(&mut out, "*");
            if !*mutable {
                push_str(&mut out, "const ");
            }
            proof {
                assert forall|y: Seq<char>| mentions(**pointee, y) && bound_type(b@, y) is Some implies rank(y) < level by {
                    assert(mentions(*t, y));
                }
            }
            let inner = canonical_text(pointee, target, b, Ghost(rank), Ghost(level));
            push_str(&mut out, inner.as_str());
            out
        },
        TypeRef::Slice { element, mutable } => {
            push_str(&mut out, "[]");
            if !*mutable {
                push_str(&mut out, "const ");
            }
            proof {
                assert forall|y: Seq<char>| mentions(**element, y) && bound_type(b@, y) is Some implies rank(y) < level by {
                    assert(mentions(*t, y));
                }
            }
            let inner = canonical_text(element, target, b, Ghost(rank), Ghost(level));
            push_str(&mut out, inner.as_str());
            out
        },
        TypeRef::Array { element, length } => {
            push_str(&mut out, "[");
            proof {
                assert forall|y: Seq<char>| mentions(**element, y) && bound_type(b@, y) is Some implies rank(y) < level by {
                    assert(mentions(*t, y));
                }
            }
            let inner = canonical_text(element, target, b, Ghost(rank), Ghost(level));
            push_str(&mut out, inner.as_str());
            push_str(&mut out, ";");
            push_decimal(&mut out, *length);
            push_str(&mut out, "]");
            out
        },
    }
}

/// The canonical text of a type written in an `impl` for `target` whose
/// associated type bindings are `b` (see `canonical`).
pub fn canonical_type_ref(t: &TypeRef, target: &str, b: &Vec<(String, TypeRef)>) -> (r: String)
    requires
        bindings_acyclic(b@),
    ensures
        r@ == canonical(*t, target@, b@, binding_rank(b@), rank_above(*t, b@, binding_rank(b@))),
{
    let ghost rank = binding_rank(b@);
    proof {
        assert forall|y: Seq<char>| mentions(*t, y) && bound_type(b@, y) is Some implies rank(y) < rank_above(
            *t,
            b@,
            rank,
        ) by {
            lemma_rank_above(*t, b@, rank, y);
        }
    }
    canonical_text(t, target, b, Ghost(rank), Ghost(rank_above(*t, b@, rank)))
}

/// The canonical text of `t` under acyclic bindings `b`.
pub open spec fn canon(t: TypeRef, target: Seq<char>, b: Seq<(String, TypeRef)>) -> Seq<char> {
    canonical(t, target, b, binding_rank(b), rank_above(t, b, binding_rank(b)))
}

/// A parameter of a method signature: whether it is the receiver, and its
/// type.
#[derive(Debug)]
pub struct SignatureParam {
    pub receiver: bool,
    pub ty: TypeRef,
}

/// A method signature as written.
#[derive(Debug)]
pub struct Signature {
    pub parameters: Vec<SignatureParam>,
    pub return_type: Option<TypeRef>,
}

/// An implementation's signature matches the trait's declaration: as many
/// parameters, the receiver in the same places, and the same canonical
/// parameter and return types (`Self` and `Self::A` read through the
/// impl's target and bindings).
pub open spec fn signature_matches(declared: Signature, implemented: Signature, target: Seq<char>, b: Seq<(String, TypeRef)>) -> bool {
    &&& declared.parameters@.len() == implemented.parameters@.len()
    &&& forall|i: int|
        0 <= i < declared.parameters@.len() ==> (#[trigger] declared.parameters@[i]).receiver
            == implemented.parameters@[i].receiver && canon(declared.parameters@[i].ty, target, b) == canon(
            implemented.parameters@[i].ty,
            target,
            b,
        )
    &&& match (declared.return_type, implemented.return_type) {
        (None, None) => true,
        (Some(x), Some(y)) => canon(x, target, b) == canon(y, target, b),
        _ => false,
    }
}

/// Whether an `impl` method's signature matches the trait's declaration.
pub fn trait_signature_matches(
    declared: &Signature,
    implemented: &Signature,
    target: &str,
    b: &Vec<(String, TypeRef)>,
) -> (r: bool)
    requires
        bindings_acyclic(b@),
    ensures
        r == signature_matches(*declared, *implemented, target@, b@),
{
    if declared.parameters.len() != implemented.parameters.len() {
        return false;
    }
    let mut i: usize = 0;
    while i < declared.parameters.len()
        invariant
            bindings_acyclic(b@),
            i <= declared.parameters@.len(),
            declared.parameters@.len() == implemented.parameters@.len(),
            forall|k: int|
                0 <= k < i ==> (#[trigger] declared.parameters@[k]).receiver == implemented.parameters@[k].receiver
                    && canon(declared.parameters@[k].ty, target@, b@) == canon(implemented.parameters@[k].ty, target@, b@),
        decreases declared.parameters@.len() - i,
    {
        let expected = &declared.parameters[i];
        let actual = &implemented.parameters[i];
        if expected.receiver != actual.receiver {
            return false;
        }
        let x = canonical_type_ref(&expected.ty, target, b);
        let y = canonical_type_ref(&actual.ty, target, b);
        if !str_eq(x.as_str(), y.as_str()) {
            return false;
        }
        i = i + 1;
    }
    match (&declared.return_type, &implemented.return_type) {
        (None, None) => true,
        (Some(x), Some(y)) => {
            let x = canonical_type_ref(x, target, b);
            let y = canonical_type_ref(y, target, b);
            str_eq(x.as_str(), y.as_str())
        },
        _ => false,
    }
}

// ---------------------------------------------------------------------------
// Trait impls.
// ---------------------------------------------------------------------------

/// Some entry of `named` has the name `name`.
pub open spec fn has_name<T>(named: Seq<(String, T)>, name: Seq<char>) -> bool {
    exists|k: int| 0 <= k < named.len() && (#[trigger] named[k]).0@ == name
}

/// The first entry of `named` with the name `name`.
pub open spec fn first_named<T>(named: Seq<(String, T)>, name: Seq<char>, i: int) -> Option<int>
    decreases named.len() - i,
{
    if i < 0 || i >= named.len() {
        None
    } else if named[i].0@ == name {
        Some(i)
    } else {
        first_named(named, name, i + 1)
    }
}

/// What is wrong with an `impl` of a trait.
#[derive(Debug, Clone, PartialEq, Eq)]
pub enum TraitImplFault {
    /// The impl binds no type to the trait's associated type `name`.
    MissingAssociated { name: String },
    /// The impl has no method `name` that the trait declares.
    MissingMethod { name: String },
    /// Impl method `index` does not match the trait's declaration.
    SignatureMismatch { index: usize, name: String },
    /// Binding `index` names no associated type of the trait.
    NotAssociated { index: usize, name: String },
    /// Impl method `index` is no method of the trait.
    NotAMethod { index: usize, name: String },
}

impl TraitImplFault {
    /// The diagnostic text, for the trait `trait_name`.
    pub fn message(&self, trait_name: &str) -> (r: String)
        ensures
            r@ == match *self {
                TraitImplFault::MissingAssociated { name } => "impl of `"@ + trait_name@
                    + "` is missing associated type `"@ + name@ + "`"@,
                TraitImplFault::MissingMethod { name } => "impl of `"@ + trait_name@ + "` is missing method `"@
                    + name@ + "`"@,
                TraitImplFault::SignatureMismatch { name, .. } => "method `"@ + name@
                    + "` does not match the `"@ + trait_name@ + "` declaration"@,
                TraitImplFault::NotAssociated { name, .. } => "`"@ + name@ + "` is not an associated type of `"@
                    + trait_name@ + "`"@,
                TraitImplFault::NotAMethod { name, .. } => "`"@ + name@ + "` is not a method of `"@ + trait_name@
                    + "`"@,
            },
    {
        let mut m = String::new();
        match self {
            TraitImplFault::MissingAssociated { name } => {
                push_str(&mut m, "impl of `");
                push_str(&mut m, trait_name);
                push_str(&mut m, "` is missing associated type `");
                push_str(&mut m, name.as_str());
                push_str(&mut m, "`");
            },
            TraitImplFault::MissingMethod { name } => {
                push_str(&mut m, "impl of `");
                push_str(&mut m, trait_name);
                push_str(&mut m, "` is missing method `");
                push_str(&mut m, name.as_str());
                push_str(&mut m, "`");
            },
            TraitImplFault::SignatureMismatch { name, .. } => {
                push_str(&mut m, "method `");
                push_str(&mut m, name.as_str());
                push_str(&mut m, "` does not match the `");
                push_str(&mut m, trait_name);
                push_str(&mut m, "` declaration");
            },
            TraitImplFault::NotAssociated { name, .. } => {
                push_str(&mut m, "`");
                push_str(&mut m, name.as_str());
                push_str(&mut m, "` is not an associated type of `");
                push_str(&mut m, trait_name);
                push_str(&mut m, "`");
            },
            TraitImplFault::NotAMethod { name, .. } => {
                push_str(&mut m, "`");
                push_str(&mut m, name.as_str());
                push_str(&mut m, "` is not a method of `");
                push_str(&mut m, trait_name);
                push_str(&mut m, "`");
            },
        }
        m
    }
}

/// `name` is one of the trait's associated types.
pub open spec fn declares(associated: Seq<String>, name: Seq<char>) -> bool {
    exists|k: int| 0 <= k < associated.len() && (#[trigger] associated[k])@ == name
}

/// The first fault among the trait's methods `0..n`: one the impl lacks,
/// or whose first impl method of that name does not match.
pub open spec fn method_fault(
    declared: Seq<(String, Signature)>,
    implemented: Seq<(String, Signature)>,
    target: Seq<char>,
    b: Seq<(String, TypeRef)>,
    n: int,
) -> Option<(int, Option<int>)>
    decreases n,
{
    if n <= 0 {
        None
    } else if method_fault(declared, implemented, target, b, n - 1) is Some {
        method_fault(declared, implemented, target, b, n - 1)
    } else {
        match first_named(implemented, declared[n - 1].0@, 0) {
            None => Some((n - 1, None)),
            Some(j) => if signature_matches(declared[n - 1].1, implemented[j].1, target, b) {
                None
            } else {
                Some((n - 1, Some(j)))
            },
        }
    }
}

/// The first fault of an `impl` of a trait, checked in this order: an
/// associated type the impl does not bind, a trait method it lacks or
/// implements with another signature, a binding of no associated type, a
/// method the trait does not declare.
pub open spec fn trait_impl_fault(
    associated: Seq<String>,
    declared: Seq<(String, Signature)>,
    target: Seq<char>,
    bindings: Seq<(String, TypeRef)>,
    implemented: Seq<(String, Signature)>,
) -> Option<(int, int)> {
    if exists|i: int| 0 <= i < associated.len() && !has_name(bindings, (#[trigger] associated[i])@) {
        let i = choose|i: int|
            0 <= i < associated.len() && !has_name(bindings, (#[trigger] associated[i])@) && forall|k: int|
                0 <= k < i ==> has_name(bindings, (#[trigger] associated[k])@);
        Some((0, i))
    } else if method_fault(declared, implemented, target, bindings, declared.len() as int) is Some {
        let f = method_fault(declared, implemented, target, bindings, declared.len() as int)->0;
        match f.1 {
            None => Some((1, f.0)),
            Some(j) => Some((2, j)),
        }
    } else if exists|i: int| 0 <= i < bindings.len() && !declares(associated, (#[trigger] bindings[i]).0@) {
        let i = choose|i: int|
            0 <= i < bindings.len() && !declares(associated, (#[trigger] bindings[i]).0@) && forall|q: int|
                0 <= q < i ==> declares(associated, (#[trigger] bindings[q]).0@);
        Some((3, i))
    } else if exists|i: int| 0 <= i < implemented.len() && !has_name(declared, (#[trigger] implemented[i]).0@) {
        let i = choose|i: int|
            0 <= i < implemented.len() && !has_name(declared, (#[trigger] implemented[i]).0@) && forall|k: int|
                0 <= k < i ==> has_name(declared, (#[trigger] implemented[k]).0@);
        Some((4, i))
    } else {
        None
    }
}

/// Which check a fault comes from, and the index it names.
pub open spec fn fault_place(f: TraitImplFault) -> (int, int) {
    match f {
        TraitImplFault::MissingAssociated { .. } => (0, -1),
        TraitImplFault::MissingMethod { .. } => (1, -1),
        TraitImplFault::SignatureMismatch { index, .. } => (2, index as int),
        TraitImplFault::NotAssociated { index, .. } => (3, index as int),
        TraitImplFault::NotAMethod { index, .. } => (4, index as int),
    }
}

pub open spec fn fault_name(f: TraitImplFault) -> Seq<char> {
    match f {
        TraitImplFault::MissingAssociated { name } => name@,
        TraitImplFault::MissingMethod { name } => name@,
        TraitImplFault::SignatureMismatch { name, .. } => name@,
        TraitImplFault::NotAssociated { name, .. } => name@,
        TraitImplFault::NotAMethod { name, .. } => name@,
    }
}

proof fn lemma_first_named<T>(named: Seq<(String, T)>, name: Seq<char>, i: int)
    requires
        0 <= i,
    ensures
        first_named(named, name, i) matches Some(k) ==> i <= k < named.len() && named[k].0@ == name,
        first_named(named, name, i) is None ==> forall|k: int| i <= k < named.len() ==> named[k].0@ != name,
    decreases named.len() - i,
{
    if i < named.len() && named[i].0@ != name {
        lemma_first_named(named, name, i + 1);
    }
}

fn find_named<T>(named: &Vec<(String, T)>, name: &str) -> (r: Option<usize>)
    ensures
        r matches Some(k) ==> first_named(named@, name@, 0) == Some(k as int),
        r is None ==> first_named(named@, name@, 0) is None,
{
    let mut i: usize = 0;
    while i < named.len()
        invariant
            i <= named@.len(),
            first_named(named@, name@, 0) == first_named(named@, name@, i as int),
        decreases named@.len() - i,
    {
        if str_eq(named[i].0.as_str(), name) {
            return Some(i);
        }
        i = i + 1;
    }
    None
}

proof fn lemma_method_fault_at(
    declared: Seq<(String, Signature)>,
    implemented: Seq<(String, Signature)>,
    target: Seq<char>,
    b: Seq<(String, TypeRef)>,
    i: int,
    n: int,
)
    requires
        0 <= i < n,
        method_fault(declared, implemented, target, b, i) is None,
        method_fault(declared, implemented, target, b, i + 1) is Some,
    ensures
        method_fault(declared, implemented, target, b, n) == method_fault(declared, implemented, target, b, i + 1),
    decreases n - i,
{
    if n > i + 1 {
        lemma_method_fault_at(declared, implemented, target, b, i, n - 1);
    }
}

/// Checks an `impl` of a trait against the trait's associated types and
/// method declarations; the first fault, if any.
pub fn check_trait_impl(
    associated: &Vec<String>,
    declared: &Vec<(String, Signature)>,
    target: &str,
    bindings: &Vec<(String, TypeRef)>,
    implemented: &Vec<(String, Signature)>,
) -> (r: Option<TraitImplFault>)
    requires
        bindings_acyclic(bindings@),
    ensures
        ({
            let f = trait_impl_fault(associated@, declared@, target@, bindings@, implemented@);
            &&& r is Some <==> f is Some
            &&& r matches Some(fault) ==> {
                let (kind, index) = f->0;
                &&& fault_place(fault).0 == kind
                &&& kind >= 2 ==> fault_place(fault).1 == index
                &&& kind == 0 ==> fault_name(fault) == associated@[index]@
                &&& kind == 1 ==> fault_name(fault) == declared@[index].0@
                &&& kind == 2 ==> fault_name(fault) == implemented@[index].0@
                &&& kind == 3 ==> fault_name(fault) == bindings@[index].0@
                &&& kind == 4 ==> fault_name(fault) == implemented@[index].0@
            }
        }),
{
    // Associated types the impl must bind.
    let mut i: usize = 0;
    while i < associated.len()
        invariant
            i <= associated@.len(),
            forall|k: int| 0 <= k < i ==> has_name(bindings@, (#[trigger] associated@[k])@),
        decreases associated@.len() - i,
    {
        proof {
            lemma_first_named(bindings@, associated@[i as int]@, 0);
        }
        if find_named(bindings, associated[i].as_str()).is_none() {
            proof {
                assert(!has_name(bindings@, associated@[i as int]@));
                let c = choose|c: int|
                    0 <= c < associated@.len() && !has_name(bindings@, (#[trigger] associated@[c])@) && forall|k: int|
                        0 <= k < c ==> has_name(bindings@, (#[trigger] associated@[k])@);
                assert(0 <= i < associated@.len() && !has_name(bindings@, associated@[i as int]@) && forall|k: int|
                    0 <= k < i ==> has_name(bindings@, (#[trigger] associated@[k])@));
                if c < i {
                    assert(has_name(bindings@, associated@[c]@));
                } else if c > i {
                    assert(has_name(bindings@, associated@[i as int]@));
                }
            }
            return Some(TraitImplFault::MissingAssociated { name: copy(associated[i].as_str()) });
        }
        i = i + 1;
    }
    // Trait methods the impl must implement alike.
    let mut i: usize = 0;
    while i < declared.len()
        invariant
            i <= declared@.len(),
            bindings_acyclic(bindings@),
            forall|k: int| 0 <= k < associated@.len() ==> has_name(bindings@, (#[trigger] associated@[k])@),
            method_fault(declared@, implemented@, target@, bindings@, i as int) is None,
        decreases declared@.len() - i,
    {
        proof {
            lemma_first_named(implemented@, declared@[i as int].0@, 0);
        }
        match find_named(implemented, declared[i].0.as_str()) {
            None => {
                proof {
                    lemma_method_fault_at(declared@, implemented@, target@, bindings@, i as int, declared@.len() as int);
                }
                return Some(TraitImplFault::MissingMethod { name: copy(declared[i].0.as_str()) });
            },
            Some(j) => {
                if !trait_signature_matches(&declared[i].1, &implemented[j].1, target, bindings) {
                    proof {
                        lemma_method_fault_at(declared@, implemented@, target@, bindings@, i as int, declared@.len() as int);
                    }
                    return Some(TraitImplFault::SignatureMismatch { index: j, name: copy(implemented[j].0.as_str()) });
                }
            },
        }
        i = i + 1;
    }
    // Bindings of associated types the trait does not have.
    let mut i: usize = 0;
    while i < bindings.len()
        invariant
            i <= bindings@.len(),
            forall|k: int| 0 <= k < associated@.len() ==> has_name(bindings@, (#[trigger] associated@[k])@),
            method_fault(declared@, implemented@, target@, bindings@, declared@.len() as int) is None,
            forall|q: int| 0 <= q < i ==> declares(associated@, (#[trigger] bindings@[q]).0@),
        decreases bindings@.len() - i,
    {
        let mut k: usize = 0;
        let mut found = false;
        while k < associated.len()
            invariant
                k <= associated@.len(),
                i < bindings@.len(),
                found ==> declares(associated@, bindings@[i as int].0@),
                !found ==> forall|m: int| 0 <= m < k ==> (#[trigger] associated@[m])@ != bindings@[i as int].0@,
            decreases associated@.len() - k,
        {
            if str_eq(associated[k].as_str(), bindings[i].0.as_str()) {
                found = true;
            }
            k = k + 1;
        }
        if !found {
            proof {
                assert(!declares(associated@, bindings@[i as int].0@));
                let c = choose|c: int|
                    0 <= c < bindings@.len() && !declares(associated@, (#[trigger] bindings@[c]).0@) && forall|q: int|
                        0 <= q < c ==> declares(associated@, (#[trigger] bindings@[q]).0@);
                if c < i {
                    assert(declares(associated@, bindings@[c].0@));
                } else if c > i {
                    assert(declares(associated@, bindings@[i as int].0@));
                }
            }
            return Some(TraitImplFault::NotAssociated { index: i, name: copy(bindings[i].0.as_str()) });
        }
        i = i + 1;
    }
    // Methods the trait does not declare.
    let mut i: usize = 0;
    while i < implemented.len()
        invariant
            i <= implemented@.len(),
            forall|k: int| 0 <= k < associated@.len() ==> has_name(bindings@, (#[trigger] associated@[k])@),
            method_fault(declared@, implemented@, target@, bindings@, declared@.len() as int) is None,
            forall|q: int| 0 <= q < bindings@.len() ==> declares(associated@, (#[trigger] bindings@[q]).0@),
            forall|k: int| 0 <= k < i ==> has_name(declared@, (#[trigger] implemented@[k]).0@),
        decreases implemented@.len() - i,
    {
        proof {
            lemma_first_named(declared@, implemented@[i as int].0@, 0);
        }
        if find_named(declared, implemented[i].0.as_str()).is_none() {
            proof {
                assert(!has_name(declared@, implemented@[i as int].0@));
                let c = choose|c: int|
                    0 <= c < implemented@.len() && !has_name(declared@, (#[trigger] implemented@[c]).0@) && forall|k: int|
                        0 <= k < c ==> has_name(declared@, (#[trigger] implemented@[k]).0@);
                assert(0 <= i < implemented@.len() && !has_name(declared@, implemented@[i as int].0@) && forall|k: int|
                    0 <= k < i ==> has_name(declared@, (#[trigger] implemented@[k]).0@));
                if c < i {
                    assert(has_name(declared@, implemented@[c].0@));
                } else if c > i {
                    assert(has_name(declared@, implemented@[i as int].0@));
                }
            }
            return Some(TraitImplFault::NotAMethod { index: i, name: copy(implemented[i].0.as_str()) });
        }
        i = i + 1;
    }
    None
}

/// The first binding of `b` whose name an earlier binding has.
pub open spec fn repeated_binding(b: Seq<(String, TypeRef)>, n: int) -> Option<int>
    decreases n,
{
    if n <= 0 {
        None
    } else if repeated_binding(b, n - 1) is Some {
        repeated_binding(b, n - 1)
    } else if exists|j: int| 0 <= j < n - 1 && (#[trigger] b[j]).0@ == b[n - 1].0@ {
        Some(n - 1)
    } else {
        None
    }
}

proof fn lemma_repeated_binding_stays(b: Seq<(String, TypeRef)>, n: int, m: int)
    requires
        0 < n <= m,
        repeated_binding(b, n) is Some,
    ensures
        repeated_binding(b, m) == repeated_binding(b, n),
    decreases m - n,
{
    if m > n {
        lemma_repeated_binding_stays(b, n, m - 1);
    }
}

/// The first associated type binding of an `impl` that repeats an earlier
/// one ("associated type `A` is bound more than once").
pub fn first_repeated_binding(b: &Vec<(String, TypeRef)>) -> (r: Option<usize>)
    ensures
        r is Some <==> repeated_binding(b@, b@.len() as int) is Some,
        r matches Some(i) ==> repeated_binding(b@, b@.len() as int) == Some(i as int),
{
    let mut i: usize = 0;
    while i < b.len()
        invariant
            i <= b@.len(),
            repeated_binding(b@, i as int) is None,
        decreases b@.len() - i,
    {
        let mut j: usize = 0;
        while j < i
            invariant
                j <= i < b@.len(),
                repeated_binding(b@, i as int) is None,
                forall|k: int| 0 <= k < j ==> (#[trigger] b@[k]).0@ != b@[i as int].0@,
            decreases i - j,
        {
            if str_eq(b[j].0.as_str(), b[i].0.as_str()) {
                proof {
                    assert(b@[j as int].0@ == b@[i as int].0@);
                    assert(repeated_binding(b@, i + 1) == Some(i as int));
                    lemma_repeated_binding_stays(b@, i as int + 1, b@.len() as int);
                }
                return Some(i);
            }
            j = j + 1;
        }
        i = i + 1;
    }
    None
}

} // verus!
