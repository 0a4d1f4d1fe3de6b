//! Monomorphization bookkeeping: instance keys, type-parameter
//! environments, instance records and built-in scalar names.
//!
//! An instance key holds the package identity, so that a generic used from
//! several packages under different aliases still has one instance, and two
//! packages' definitions of the same name never share one.
use vstd::prelude::*;

use crate::ir::{
    is_float_type, is_integer_type, scalar_as_type, type_text, EnumVariant, FunctionId, StructField,
    Type, TypeDef, TypeId,
};
use crate::layout::{acyclic, def_below, lemma_rank, rank_of, ranked_by};
use crate::package::PackageId;
use crate::text::{push_str, str_eq};
use crate::type_graph::{
    contained_ids, contains_itself, count_unvisited, field_refs, holds, id_below, is_chain,
    lemma_count_mark, lemma_count_shrinks, lemma_def_below_refs, refs_in_range, value_refs,
    variant_refs,
};

verus! {

/// Limit on the depth of an instance chain.
pub const MAX_INSTANCE_DEPTH: usize = 128;

/// Limit on the number of instances in one build.
pub const MAX_INSTANCES: usize = 10000;

/// The identity of a generic instance: package, qualified name, and the
/// concrete type arguments.
#[derive(Clone, PartialEq, Eq, Hash, Debug)]
pub struct GenericKey {
    pub package: PackageId,
    pub name: String,
    pub args: Vec<Type>,
}

impl GenericKey {
    /// The key of `name` instantiated with `args` in `package`.
    pub fn in_package(package: PackageId, name: &str, args: Vec<Type>) -> (r: GenericKey)
        ensures
            r.package == package,
            r.name@ == name@,
            r.args@ == args@,
    {
        GenericKey { package, name: name.to_owned(), args }
    }

    /// Whether two keys name the same instance: same package, same name,
    /// same type arguments.
    pub fn same_key(&self, other: &GenericKey) -> (r: bool)
        ensures
            r == (self.package == other.package && self.name@ == other.name@ && self.args@
                == other.args@),
    {
        if self.package != other.package || !str_eq(self.name.as_str(), other.name.as_str()) {
            return false;
        }
        if self.args.len() != other.args.len() {
            return false;
        }
        let mut i: usize = 0;
        while i < self.args.len()
            invariant
                i <= self.args.len() == other.args.len(),
                forall|k: int| 0 <= k < i ==> self.args@[k] == other.args@[k],
            decreases self.args.len() - i,
        {
            if !self.args[i].same(&other.args[i]) {
                return false;
            }
            i = i + 1;
        }
        assert(self.args@ =~= other.args@);
        true
    }
}

/// Keys built from different packages never name the same instance, and
/// keys built from the same parts always do.
pub proof fn lemma_keys_separate_packages(a: GenericKey, b: GenericKey)
    requires
        a.name@ == b.name@,
        a.args@ == b.args@,
    ensures
        (a.package == b.package) <==> (a.package == b.package && a.name@ == b.name@ && a.args@
            == b.args@),
{
}

/// The type bound to `name` in `params`: its first binding.
pub open spec fn bound_type(params: Seq<(String, Type)>, name: Seq<char>) -> Option<Type>
    decreases params.len(),
{
    if params.len() == 0 {
        None
    } else if params[0].0@ == name {
        Some(params[0].1)
    } else {
        bound_type(params.drop_first(), name)
    }
}

/// Type parameter environment: template parameter names and the concrete
/// types bound to them, in binding order.
#[derive(Debug)]
pub struct TypeEnv {
    params: Vec<(String, Type)>,
}

impl View for TypeEnv {
    type V = Seq<(String, Type)>;

    closed spec fn view(&self) -> Seq<(String, Type)> {
        self.params@
    }
}

impl Default for TypeEnv {
    fn default() -> (r: TypeEnv)
        ensures
            r@.len() == 0,
    {
        TypeEnv { params: Vec::new() }
    }
}

impl TypeEnv {
    /// An empty environment.
    pub fn new() -> (r: TypeEnv)
        ensures
            r@.len() == 0,
    {
        TypeEnv { params: Vec::new() }
    }

    /// The type bound to `name`.
    pub fn get(&self, name: &str) -> (r: Option<Type>)
        ensures
            r == bound_type(self@, name@),
    {
        let mut i: usize = 0;
        assert(self.params@.skip(0) =~= self.params@);
        while i < self.params.len()
            invariant
                i <= self.params.len(),
                bound_type(self.params@, name@) == bound_type(self.params@.skip(i as int), name@),
            decreases self.params.len() - i,
        {
            assert(self.params@.skip(i as int)[0] == self.params@[i as int]);
            assert(self.params@.skip(i as int).drop_first() =~= self.params@.skip(i + 1));
            if str_eq(self.params[i].0.as_str(), name) {
                return Some(self.params[i].1.duplicate());
            }
            i = i + 1;
        }
        None
    }

    /// Binds `name` to `ty` unless `name` is already bound; the first binding
    /// stays.
    pub fn bind(&mut self, name: &str, ty: Type)
        ensures
            bound_type(old(self)@, name@) is Some ==> final(self)@ == old(self)@,
            bound_type(old(self)@, name@) is None ==> final(self)@.len() == old(self)@.len() + 1
                && final(self)@.drop_last() == old(self)@ && final(self)@.last().0@ == name@
                && final(self)@.last().1 == ty,
    {
        if self.get(name).is_some() {
            return ;
        }
        self.params.push((name.to_owned(), ty));
        assert(self.params@.drop_last() =~= old(self)@);
    }
}

proof fn lemma_bound_after_push(params: Seq<(String, Type)>, entry: (String, Type), name: Seq<char>)
    ensures
        bound_type(params, name) is Some ==> bound_type(params.push(entry), name) == bound_type(
            params,
            name,
        ),
        bound_type(params, name) is None && entry.0@ == name ==> bound_type(params.push(entry), name)
            == Some(entry.1),
        bound_type(params, name) is None && entry.0@ != name ==> bound_type(params.push(entry), name)
            is None,
    decreases params.len(),
{
    if params.len() > 0 {
        assert(params.push(entry).drop_first() =~= params.drop_first().push(entry));
        lemma_bound_after_push(params.drop_first(), entry, name);
    } else {
        assert(params.push(entry).drop_first() =~= Seq::<(String, Type)>::empty());
        assert(params.push(entry)[0] == entry);
        assert(bound_type(Seq::<(String, Type)>::empty(), name) is None);
    }
}

/// Binding is first-wins: after `bind(name, ty)`, `name` is bound to its
/// earlier type if it had one and to `ty` otherwise, and every other name
/// keeps its binding.
pub proof fn lemma_bind_then_get(
    before: Seq<(String, Type)>,
    after: Seq<(String, Type)>,
    name: Seq<char>,
    ty: Type,
    other: Seq<char>,
)
    requires
        bound_type(before, name) is Some ==> after == before,
        bound_type(before, name) is None ==> after.len() == before.len() + 1 && after.drop_last()
            == before && after.last().0@ == name && after.last().1 == ty,
    ensures
        bound_type(after, name) == match bound_type(before, name) {
            Some(t) => Some(t),
            None => Some(ty),
        },
        other != name ==> bound_type(after, other) == bound_type(before, other),
{
    if bound_type(before, name) is None {
        assert(after == before.push(after.last()));
        lemma_bound_after_push(before, after.last(), name);
        lemma_bound_after_push(before, after.last(), other);
    }
}

/// The type a template parameter list binds `name` to: the argument of
/// the first parameter so named.
pub open spec fn first_binding(names: Seq<String>, args: Seq<Type>, name: Seq<char>) -> Option<Type>
    decreases names.len(),
{
    if names.len() == 0 || args.len() == 0 {
        None
    } else if names[0]@ == name {
        Some(args[0])
    } else {
        first_binding(names.drop_first(), args.drop_first(), name)
    }
}

proof fn lemma_first_binding_push(names: Seq<String>, args: Seq<Type>, n: String, t: Type, name: Seq<char>)
    requires
        names.len() == args.len(),
    ensures
        first_binding(names.push(n), args.push(t), name) == match first_binding(names, args, name) {
            Some(b) => Some(b),
            None => if n@ == name {
                Some(t)
            } else {
                None
            },
        },
    decreases names.len(),
{
    if names.len() > 0 {
        assert(names.push(n)[0] == names[0]);
        assert(args.push(t)[0] == args[0]);
        assert(names.push(n).drop_first() =~= names.drop_first().push(n));
        assert(args.push(t).drop_first() =~= args.drop_first().push(t));
        lemma_first_binding_push(names.drop_first(), args.drop_first(), n, t, name);
        if names[0]@ != name {
            assert(first_binding(names.push(n), args.push(t), name) == first_binding(
                names.drop_first().push(n),
                args.drop_first().push(t),
                name,
            ));
            assert(first_binding(names, args, name) == first_binding(
                names.drop_first(),
                args.drop_first(),
                name,
            ));
        }
    } else {
        assert(names.push(n)[0] == n);
        assert(args.push(t)[0] == t);
        assert(names.push(n).drop_first() =~= Seq::<String>::empty());
        assert(args.push(t).drop_first() =~= Seq::<Type>::empty());
        assert(first_binding(names, args, name) is None);
        assert(first_binding(Seq::<String>::empty(), Seq::<Type>::empty(), name) is None);
        if n@ == name {
            assert(first_binding(names.push(n), args.push(t), name) == Some(t));
        } else {
            assert(first_binding(names.push(n), args.push(t), name) is None);
        }
    }
}

/// The environment of a template instantiated with `args`: each parameter
/// bound to its argument, the first of equal names winning. The counts must
/// agree.
pub fn build_env(type_params: &[String], args: &[Type]) -> (r: Result<TypeEnv, String>)
    ensures
        r is Ok <==> type_params@.len() == args@.len(),
        r matches Ok(env) ==> forall|name: Seq<char>|
            #[trigger] bound_type(env@, name) == first_binding(type_params@, args@, name),
        r matches Err(m) ==> m@ == "type expects "@ + crate::text::decimal(type_params@.len())
            + " type arguments but "@ + crate::text::decimal(args@.len()) + " were provided"@,
{
    if type_params.len() != args.len() {
        let mut m = String::new();
        push_str(&mut m, "type expects ");
        crate::text::push_decimal(&mut m, type_params.len() as u64);
        push_str(&mut m, " type arguments but ");
        crate::text::push_decimal(&mut m, args.len() as u64);
        push_str(&mut m, " were provided");
        return Err(m);
    }
    let mut env = TypeEnv::new();
    let mut i: usize = 0;
    while i < type_params.len()
        invariant
            type_params@.len() == args@.len(),
            i <= type_params@.len(),
            forall|name: Seq<char>|
                #[trigger] bound_type(env@, name) == first_binding(
                    type_params@.take(i as int),
                    args@.take(i as int),
                    name,
                ),
        decreases type_params.len() - i,
    {
        let ghost before = env@;
        env.bind(type_params[i].as_str(), args[i].duplicate());
        proof {
            let n = type_params@[i as int];
            let t = args@[i as int];
            assert(type_params@.take(i + 1) =~= type_params@.take(i as int).push(n));
            assert(args@.take(i + 1) =~= args@.take(i as int).push(t));
            assert forall|name: Seq<char>| #[trigger]
                bound_type(env@, name) == first_binding(
                    type_params@.take(i + 1),
                    args@.take(i + 1),
                    name,
                ) by {
                lemma_first_binding_push(type_params@.take(i as int), args@.take(i as int), n, t, name);
                lemma_bind_then_get(before, env@, n@, t, name);
            }
        }
        i = i + 1;
    }
    assert(type_params@.take(type_params@.len() as int) =~= type_params@);
    assert(args@.take(args@.len() as int) =~= args@);
    Ok(env)
}

/// The diagnostic for a type parameter that inference left open.
pub open spec fn uninferred_text(name: Seq<char>) -> Seq<char> {
    "cannot infer type argument `"@ + name + "`; specify it explicitly, e.g. `f<...>(...)`"@
}

/// The inferred arguments of `param_names`, in order; the first parameter
/// left unbound is reported.
pub fn finish_bindings(param_names: &[String], bindings: &TypeEnv) -> (r: Result<Vec<Type>, String>)
    ensures
        r is Ok <==> forall|i: int|
            0 <= i < param_names@.len() ==> (#[trigger] bound_type(bindings@, param_names@[i]@)) is Some,
        r matches Ok(v) ==> v@.len() == param_names@.len() && forall|i: int|
            0 <= i < v@.len() ==> Some(#[trigger] v@[i]) == bound_type(bindings@, param_names@[i]@),
        r matches Err(m) ==> exists|i: int|
            0 <= i < param_names@.len() && bound_type(bindings@, param_names@[i]@) is None && (forall|
                k: int,
            | 0 <= k < i ==> (#[trigger] bound_type(bindings@, param_names@[k]@)) is Some) && m@
                == uninferred_text(#[trigger] param_names@[i]@),
{
    let mut result: Vec<Type> = Vec::new();
    let mut i: usize = 0;
    while i < param_names.len()
        invariant
            i <= param_names@.len(),
            result@.len() == i,
            forall|k: int|
                0 <= k < i ==> Some(#[trigger] result@[k]) == bound_type(bindings@, param_names@[k]@),
        decreases param_names.len() - i,
    {
        match bindings.get(param_names[i].as_str()) {
            Some(ty) => result.push(ty),
            None => {
                let mut m = String::new();
                push_str(&mut m, "cannot infer type argument `");
                push_str(&mut m, param_names[i].as_str());
                push_str(&mut m, "`; specify it explicitly, e.g. `f<...>(...)`");
                assert forall|k: int| 0 <= k < i implies (#[trigger] bound_type(
                    bindings@,
                    param_names@[k]@,
                )) is Some by {
                    assert(Some(result@[k]) == bound_type(bindings@, param_names@[k]@));
                }
                return Err(m);
            },
        }
        i = i + 1;
    }
    assert forall|k: int| 0 <= k < param_names@.len() implies (#[trigger] bound_type(
        bindings@,
        param_names@[k]@,
    )) is Some by {
        assert(Some(result@[k]) == bound_type(bindings@, param_names@[k]@));
    }
    Ok(result)
}

/// Where an instance is in the work queue.
#[derive(Clone, Copy, PartialEq, Eq, Debug, Structural)]
pub enum InstanceStatus {
    Queued,
    InProgress,
    Done,
}

/// A function instance.
#[derive(Debug)]
pub struct InstanceInfo {
    pub name: String,
    /// The module the instance's definition is in (for field visibility).
    pub module: String,
    pub env: TypeEnv,
    pub parameters: Vec<Type>,
    pub return_type: Type,
    pub depth: usize,
    pub status: InstanceStatus,
    /// The source file of the instantiated template.
    pub source_id: usize,
    /// An `extern "C"` declaration (no body).
    pub extern_c: bool,
    pub link_name: Option<String>,
}

/// A function instance's signature.
#[derive(Debug)]
pub struct Signature {
    pub id: FunctionId,
    pub parameters: Vec<Type>,
    pub return_type: Type,
}

/// The built-in scalar type a type name denotes; `c_long_bytes` is the size
/// of the host C `long` (8 or 4).
pub open spec fn builtin_type_of(name: Seq<char>, c_long_bytes: u64) -> Option<Type> {
    if name == "i8"@ {
        Some(Type::I8)
    } else if name == "i16"@ {
        Some(Type::I16)
    } else if name == "i32"@ {
        Some(Type::I32)
    } else if name == "i64"@ {
        Some(Type::I64)
    } else if name == "u8"@ {
        Some(Type::U8)
    } else if name == "u16"@ {
        Some(Type::U16)
    } else if name == "u32"@ {
        Some(Type::U32)
    } else if name == "u64"@ {
        Some(Type::U64)
    } else if name == "usize"@ {
        Some(Type::Usize)
    } else if name == "isize"@ {
        Some(Type::Isize)
    } else if name == "f32"@ {
        Some(Type::F32)
    } else if name == "f64"@ {
        Some(Type::F64)
    } else if name == "char"@ {
        Some(Type::Char)
    } else if name == "bool"@ {
        Some(Type::Bool)
    } else if name == "string"@ {
        Some(Type::String)
    } else if name == "c_int"@ {
        Some(Type::I32)
    } else if name == "c_uint"@ {
        Some(Type::U32)
    } else if name == "c_char"@ {
        Some(Type::I8)
    } else if name == "c_long"@ {
        Some(if c_long_bytes == 8 { Type::I64 } else { Type::I32 })
    } else if name == "c_ulong"@ {
        Some(if c_long_bytes == 8 { Type::U64 } else { Type::U32 })
    } else if name == "Unit"@ {
        Some(Type::Unit)
    } else {
        None
    }
}

/// The built-in scalar type named `name`, if it is one.
pub fn builtin_type(name: &str, c_long_bytes: u64) -> (r: Option<Type>)
    ensures
        r == builtin_type_of(name@, c_long_bytes),
{
    if str_eq(name, "i8") {
        Some(Type::I8)
    } else if str_eq(name, "i16") {
        Some(Type::I16)
    } else if str_eq(name, "i32") {
        Some(Type::I32)
    } else if str_eq(name, "i64") {
        Some(Type::I64)
    } else if str_eq(name, "u8") {
        Some(Type::U8)
    } else if str_eq(name, "u16") {
        Some(Type::U16)
    } else if str_eq(name, "u32") {
        Some(Type::U32)
    } else if str_eq(name, "u64") {
        Some(Type::U64)
    } else if str_eq(name, "usize") {
        Some(Type::Usize)
    } else if str_eq(name, "isize") {
        Some(Type::Isize)
    } else if str_eq(name, "f32") {
        Some(Type::F32)
    } else if str_eq(name, "f64") {
        Some(Type::F64)
    } else if str_eq(name, "char") {
        Some(Type::Char)
    } else if str_eq(name, "bool") {
        Some(Type::Bool)
    } else if str_eq(name, "string") {
        Some(Type::String)
    } else if str_eq(name, "c_int") {
        Some(Type::I32)
    } else if str_eq(name, "c_uint") {
        Some(Type::U32)
    } else if str_eq(name, "c_char") {
        Some(Type::I8)
    } else if str_eq(name, "c_long") {
        Some(if c_long_bytes == 8 { Type::I64 } else { Type::I32 })
    } else if str_eq(name, "c_ulong") {
        Some(if c_long_bytes == 8 { Type::U64 } else { Type::U32 })
    } else if str_eq(name, "Unit") {
        Some(Type::Unit)
    } else {
        None
    }
}

// ---------------------------------------------------------------------------
// The monomorphizer's tables.
// ---------------------------------------------------------------------------

/// The monomorphizer's state: the instantiated type definitions with their
/// keys, and the function instances with their work queue.
#[derive(Debug)]
pub struct MonoState {
    pub types: Vec<TypeDef>,
    /// `type_keys[i]` is the instance key of `types[i]`.
    pub type_keys: Vec<GenericKey>,
    pub instances: Vec<InstanceInfo>,
    pub pending: Vec<FunctionId>,
    pub main: Option<FunctionId>,
}

/// A pointer to `t` may appear in a C signature.
pub open spec fn c_pointee(types: Seq<TypeDef>, t: Type) -> bool
    decreases t,
{
    if is_integer_type(t) || is_float_type(t) || t is Unit || extern_struct(types, t) {
        true
    } else {
        match t {
            Type::Ptr { pointee, .. } => c_pointee(types, *pointee),
            Type::Array { element, .. } => is_integer_type(scalar_as_type(element)) || is_float_type(
                scalar_as_type(element),
            ),
            _ => false,
        }
    }
}

/// `t` is a struct declared `extern struct`.
pub open spec fn extern_struct(types: Seq<TypeDef>, t: Type) -> bool {
    match t {
        Type::Struct(id) => types[id.0 as int] matches TypeDef::Struct { extern_c: true, .. },
        _ => false,
    }
}

/// Every struct that the pointer chain of `t` reaches names a definition of
/// the table.
pub open spec fn pointee_ids_in_range(types: Seq<TypeDef>, t: Type) -> bool
    decreases t,
{
    match t {
        Type::Struct(id) => id.0 < types.len(),
        Type::Ptr { pointee, .. } => pointee_ids_in_range(types, *pointee),
        _ => true,
    }
}

/// `t` may be passed by value to or from C: a C scalar or a pointer to a C
/// pointee.
pub open spec fn c_value_type(types: Seq<TypeDef>, t: Type) -> bool {
    if is_integer_type(t) || is_float_type(t) {
        true
    } else {
        match t {
            Type::Ptr { pointee, .. } => c_pointee(types, *pointee),
            _ => false,
        }
    }
}

/// `t` may be the type of an `extern struct` field: a C scalar, another
/// `extern struct`, a pointer to a C pointee, or an array of C scalars.
pub open spec fn extern_field_ok(types: Seq<TypeDef>, t: Type) -> bool {
    if is_integer_type(t) || is_float_type(t) || extern_struct(types, t) {
        true
    } else {
        match t {
            Type::Ptr { pointee, .. } => c_pointee(types, *pointee),
            Type::Array { element, .. } => is_integer_type(scalar_as_type(element)) || is_float_type(
                scalar_as_type(element),
            ),
            _ => false,
        }
    }
}

/// The type arguments of a key, separated by `, `.
pub open spec fn args_text(args: Seq<Type>) -> Seq<char>
    decreases args.len(),
{
    if args.len() == 0 {
        Seq::empty()
    } else if args.len() == 1 {
        type_text(args[0])
    } else {
        args_text(args.drop_last()) + ", "@ + type_text(args.last())
    }
}

/// How an instantiated type is named in diagnostics: `Name` or `Name<A, B>`.
pub open spec fn key_text(key: GenericKey) -> Seq<char> {
    if key.args@.len() == 0 {
        key.name@
    } else {
        key.name@ + "<"@ + args_text(key.args@) + ">"@
    }
}

/// The diagnostic for a type that contains itself by value.
pub open spec fn cycle_text(name: Seq<char>) -> Seq<char> {
    "recursive layout: type `"@ + name + "` contains itself by value"@
}

/// Every entry of a visit state is 0 (unvisited), 1 (on the current path)
/// or 2 (finished).
pub open spec fn colors_ok(state: Seq<u8>) -> bool {
    forall|i: int| 0 <= i < state.len() ==> #[trigger] state[i] <= 2
}

/// Every finished definition holds by value only finished definitions that
/// finished before it, and all finished before `clock`.
pub open spec fn finished_closed(types: Seq<TypeDef>, state: Seq<u8>, fin: Seq<nat>, clock: nat) -> bool {
    &&& fin.len() == types.len()
    &&& state.len() == types.len()
    &&& forall|i: int|
        #![trigger state[i]]
        0 <= i < types.len() && state[i] == 2 ==> {
            &&& fin[i] < clock
            &&& forall|k: int|
                0 <= k < contained_ids(types[i]).len() ==> {
                    let d = (#[trigger] contained_ids(types[i])[k]).0 as int;
                    state[d] == 2 && fin[d] < fin[i]
                }
        }
}

/// In an acyclic table every definition on the current path ranks above `id`.
pub open spec fn path_above(types: Seq<TypeDef>, state: Seq<u8>, id: int) -> bool {
    acyclic(types) ==> forall|g: int|
        0 <= g < state.len() && #[trigger] state[g] == 1 ==> rank_of(types)[g] > rank_of(types)[id]
}

impl MonoState {
    /// Empty tables.
    pub fn new() -> (r: MonoState)
        ensures
            r.types@.len() == 0,
            r.type_keys@.len() == 0,
            r.instances@.len() == 0,
            r.pending@.len() == 0,
            r.main is None,
    {
        MonoState {
            types: Vec::new(),
            type_keys: Vec::new(),
            instances: Vec::new(),
            pending: Vec::new(),
            main: None,
        }
    }

    /// Each type has its key, and every type held by value is in the table.
    pub open spec fn tables_wf(&self) -> bool {
        &&& self.type_keys.len() == self.types.len()
        &&& refs_in_range(self.types@)
    }

    /// The instance record of `id`.
    pub fn instance(&self, id: FunctionId) -> (r: &InstanceInfo)
        requires
            id.0 < self.instances.len(),
        ensures
            *r == self.instances@[id.0 as int],
    {
        &self.instances[id.0]
    }

    /// The signature of instance `id`.
    pub fn instance_signature(&self, id: FunctionId) -> (r: Signature)
        requires
            id.0 < self.instances.len(),
        ensures
            r.id == id,
            r.parameters@ == self.instances@[id.0 as int].parameters@,
            r.return_type == self.instances@[id.0 as int].return_type,
    {
        let instance = self.instance(id);
        let mut parameters: Vec<Type> = Vec::new();
        let mut i: usize = 0;
        while i < instance.parameters.len()
            invariant
                i <= instance.parameters.len(),
                parameters@ == instance.parameters@.take(i as int),
            decreases instance.parameters.len() - i,
        {
            parameters.push(instance.parameters[i].duplicate());
            assert(instance.parameters@.take(i + 1) =~= instance.parameters@.take(i as int).push(
                instance.parameters@[i as int],
            ));
            i = i + 1;
        }
        assert(instance.parameters@.take(instance.parameters.len() as int) =~= instance.parameters@);
        Signature { id, parameters, return_type: instance.return_type.duplicate() }
    }

    /// The type naming definition `id`.
    pub fn type_of(&self, id: TypeId) -> (r: Type)
        requires
            id.0 < self.types.len(),
        ensures
            r == (if self.types@[id.0 as int] is Struct {
                Type::Struct(id)
            } else {
                Type::Enum(id)
            }),
    {
        match &self.types[id.0] {
            TypeDef::Struct { .. } => Type::Struct(id),
            TypeDef::Enum { .. } => Type::Enum(id),
        }
    }

    /// The fields of struct `id`.
    pub fn struct_fields(&self, id: TypeId) -> (r: &[StructField])
        requires
            id.0 < self.types.len(),
            self.types@[id.0 as int] is Struct,
        ensures
            r@ == self.types@[id.0 as int]->Struct_fields@,
    {
        match &self.types[id.0] {
            TypeDef::Struct { fields, .. } => fields.as_slice(),
            TypeDef::Enum { .. } => {
                assert(false);
                &[]
            },
        }
    }

    /// The variants of enum `id`.
    pub fn enum_variants(&self, id: TypeId) -> (r: &[EnumVariant])
        requires
            id.0 < self.types.len(),
            self.types@[id.0 as int] is Enum,
        ensures
            r@ == self.types@[id.0 as int]->variants@,
    {
        match &self.types[id.0] {
            TypeDef::Enum { variants } => variants.as_slice(),
            TypeDef::Struct { .. } => {
                assert(false);
                &[]
            },
        }
    }

    /// Whether definition `id` is an enum.
    pub fn is_enum(&self, id: TypeId) -> (r: bool)
        requires
            id.0 < self.types.len(),
        ensures
            r == (self.types@[id.0 as int] is Enum),
    {
        match &self.types[id.0] {
            TypeDef::Enum { .. } => true,
            TypeDef::Struct { .. } => false,
        }
    }

    /// Whether `ty` is an `extern struct`.
    pub fn is_extern_struct(&self, ty: &Type) -> (r: bool)
        requires
            ty matches Type::Struct(id) ==> id.0 < self.types.len(),
        ensures
            r == extern_struct(self.types@, *ty),
    {
        match ty {
            Type::Struct(id) => match &self.types[id.0] {
                TypeDef::Struct { extern_c, .. } => *extern_c,
                TypeDef::Enum { .. } => false,
            },
            _ => false,
        }
    }

    /// The user-defined types a definition holds by value, in field order;
    /// pointers and slices are indirect and add nothing.
    pub fn contained_user_types(&self, def: &TypeDef) -> (r: Vec<TypeId>)
        ensures
            r@ == contained_ids(*def),
    {
        let mut out: Vec<TypeId> = Vec::new();
        match def {
            TypeDef::Struct { fields, .. } => {
                let mut j: usize = 0;
                while j < fields.len()
                    invariant
                        j <= fields.len(),
                        out@ == field_refs(fields@.take(j as int)),
                    decreases fields.len() - j,
                {
                    assert(fields@.take(j + 1).drop_last() =~= fields@.take(j as int));
                    match &fields[j].ty {
                        Type::Struct(id) => out.push(*id),
                        Type::Enum(id) => out.push(*id),
                        _ => {},
                    }
                    j = j + 1;
                }
                assert(fields@.take(fields.len() as int) =~= fields@);
            },
            TypeDef::Enum { variants } => {
                let mut v: usize = 0;
                while v < variants.len()
                    invariant
                        v <= variants.len(),
                        out@ == variant_refs(variants@.take(v as int)),
                    decreases variants.len() - v,
                {
                    let payload = &variants[v].fields;
                    let ghost before = out@;
                    let mut j: usize = 0;
                    while j < payload.len()
                        invariant
                            j <= payload.len(),
                            out@ == before + value_refs(payload@.take(j as int)),
                        decreases payload.len() - j,
                    {
                        assert(payload@.take(j + 1).drop_last() =~= payload@.take(j as int));
                        match &payload[j] {
                            Type::Struct(id) => out.push(*id),
                            Type::Enum(id) => out.push(*id),
                            _ => {},
                        }
                        j = j + 1;
                    }
                    assert(payload@.take(payload.len() as int) =~= payload@);
                    assert(variants@.take(v + 1).drop_last() =~= variants@.take(v as int));
                    v = v + 1;
                }
                assert(variants@.take(variants.len() as int) =~= variants@);
            },
        }
        out
    }

    /// The diagnostic name of type `id`: its key's name, with the type
    /// arguments in angle brackets when there are any.
    pub fn type_display(&self, id: TypeId) -> (r: String)
        requires
            id.0 < self.type_keys.len(),
        ensures
            r@ == key_text(self.type_keys@[id.0 as int]),
    {
        let key = &self.type_keys[id.0];
        let mut out = String::new();
        push_str(&mut out, key.name.as_str());
        if key.args.len() == 0 {
            return out;
        }
        push_str(&mut out, "<");
        let mut i: usize = 0;
        while i < key.args.len()
            invariant
                i <= key.args.len(),
                key.args.len() > 0,
                out@ == key.name@ + "<"@ + args_text(key.args@.take(i as int)),
            decreases key.args.len() - i,
        {
            let ghost start = out@;
            let piece = key.args[i].render();
            if i > 0 {
                push_str(&mut out, ", ");
            }
            push_str(&mut out, piece.as_str());
            proof {
                let taken = key.args@.take(i + 1);
                assert(taken.drop_last() =~= key.args@.take(i as int));
                assert(taken.last() == key.args@[i as int]);
                if i == 0 {
                    assert(key.args@.take(0) =~= Seq::<Type>::empty());
                    assert(out@ =~= key.name@ + "<"@ + args_text(taken));
                } else {
                    assert(out@ =~= key.name@ + "<"@ + args_text(taken));
                }
            }
            i = i + 1;
        }
        push_str(&mut out, ">");
        assert(key.args@.take(key.args.len() as int) =~= key.args@);
        out
    }

    /// Whether `ty` may be passed by value to or from C.
    pub fn is_c_value_type(&self, ty: &Type) -> (r: bool)
        requires
            ty matches Type::Ptr { pointee, .. } ==> pointee_ids_in_range(self.types@, **pointee),
        ensures
            r == c_value_type(self.types@, *ty),
    {
        if ty.is_integer() || ty.is_float() {
            return true;
        }
        match ty {
            Type::Ptr { pointee, .. } => self.is_c_pointee(pointee),
            _ => false,
        }
    }

    fn is_c_pointee(&self, ty: &Type) -> (r: bool)
        requires
            pointee_ids_in_range(self.types@, *ty),
        ensures
            r == c_pointee(self.types@, *ty),
        decreases ty,
    {
        if ty.is_integer() || ty.is_float() || matches!(ty, Type::Unit) || self.is_extern_struct(ty) {
            return true;
        }
        match ty {
            Type::Ptr { pointee, .. } => self.is_c_pointee(pointee),
            Type::Array { element, .. } => {
                let t = element.as_type();
                t.is_integer() || t.is_float()
            },
            _ => false,
        }
    }

    /// Checks that `ty` may be the type of an `extern struct` field.
    pub fn validate_extern_struct_field(&self, ty: &Type) -> (r: Result<(), String>)
        requires
            pointee_ids_in_range(self.types@, *ty),
        ensures
            r is Ok <==> extern_field_ok(self.types@, *ty),
            r matches Err(m) ==> m@ == "type `"@ + type_text(*ty)
                + "` cannot be used in an `extern struct` field"@,
    {
        if ty.is_integer() || ty.is_float() || self.is_extern_struct(ty) {
            return Ok(());
        }
        match ty {
            Type::Ptr { pointee, .. } => {
                if self.is_c_pointee(pointee) {
                    return Ok(());
                }
            },
            Type::Array { element, .. } => {
                let t = element.as_type();
                if t.is_integer() || t.is_float() {
                    return Ok(());
                }
            },
            _ => {},
        }
        let mut m = String::new();
        push_str(&mut m, "type `");
        let shown = ty.render();
        push_str(&mut m, shown.as_str());
        push_str(&mut m, "` cannot be used in an `extern struct` field");
        Err(m)
    }

    /// Checks that no type contains itself by value, directly or through
    /// other types; the error names a type on a cycle.
    pub fn check_layout_cycles(&self) -> (r: Result<(), String>)
        requires
            self.tables_wf(),
        ensures
            r is Ok <==> acyclic(self.types@),
            r matches Err(m) ==> exists|k: int|
                0 <= k < self.types.len() && contains_itself(self.types@, k) && m@ == cycle_text(
                    key_text(#[trigger] self.type_keys@[k]),
                ),
    {
        let n = self.types.len();
        let mut state: Vec<u8> = Vec::new();
        let mut i: usize = 0;
        while i < n
            invariant
                i <= n,
                state@ == Seq::new(i as nat, |_k: int| 0u8),
            decreases n - i,
        {
            state.push(0);
            i = i + 1;
        }
        let ghost mut fin: Seq<nat> = Seq::new(n as nat, |_k: int| 0nat);
        let ghost mut clock: nat = 0;
        let mut id: usize = 0;
        while id < n
            invariant
                n == self.types.len(),
                self.tables_wf(),
                id <= n,
                state.len() == n,
                colors_ok(state@),
                forall|g: int| 0 <= g < n ==> #[trigger] state@[g] != 1,
                forall|g: int| 0 <= g < id ==> #[trigger] state@[g] == 2,
                finished_closed(self.types@, state@, fin, clock),
            decreases n - id,
        {
            if state[id] == 0 {
                let (found, Ghost(next)) = self.visit_layout(
                    TypeId(id),
                    &mut state,
                    Ghost(fin),
                    Ghost(clock),
                    Ghost(Seq::empty()),
                );
                proof {
                    fin = next.0;
                    clock = next.1;
                }
                match found {
                    Err(k) => {
                        let name = self.type_display(k);
                        let mut m = String::new();
                        push_str(&mut m, "recursive layout: type `");
                        push_str(&mut m, name.as_str());
                        push_str(&mut m, "` contains itself by value");
                        assert(m@ == cycle_text(key_text(self.type_keys@[k.0 as int])));
                        return Err(m);
                    },
                    Ok(()) => {},
                }
            }
            id = id + 1;
        }
        proof {
            let types = self.types@;
            assert forall|t: int| 0 <= t < types.len() implies def_below(
                #[trigger] types[t],
                types.len(),
                fin,
                fin[t],
            ) by {
                lemma_def_below_refs(types[t], types.len(), fin, fin[t]);
                assert(state@[t] == 2);
                assert forall|k: int| 0 <= k < contained_ids(types[t]).len() implies id_below(
                    #[trigger] contained_ids(types[t])[k],
                    types.len(),
                    fin,
                    fin[t],
                ) by {
                    assert(contained_ids(types[t])[k].0 < types.len());
                }
            }
            assert(ranked_by(types, fin));
        }
        Ok(())
    }

    /// Depth-first visit from the unvisited definition `id`: fails on
    /// reaching a definition that is still on the current path.
    fn visit_layout(
        &self,
        id: TypeId,
        state: &mut Vec<u8>,
        Ghost(fin0): Ghost<Seq<nat>>,
        Ghost(clock0): Ghost<nat>,
        Ghost(path): Ghost<Seq<int>>,
    ) -> (r: (Result<(), TypeId>, Ghost<(Seq<nat>, nat)>))
        requires
            refs_in_range(self.types@),
            id.0 < self.types.len(),
            is_chain(self.types@, path.push(id.0 as int)),
            forall|g: int| 0 <= g < old(state).len() ==> (#[trigger] old(state)@[g] == 1 <==> path.contains(g)),
            old(state).len() == self.types.len(),
            old(state)@[id.0 as int] == 0,
            colors_ok(old(state)@),
            finished_closed(self.types@, old(state)@, fin0, clock0),
            path_above(self.types@, old(state)@, id.0 as int),
        ensures
            final(state).len() == old(state).len(),
            count_unvisited(final(state)@) <= count_unvisited(old(state)@),
            forall|i: int|
                0 <= i < final(state).len() && #[trigger] final(state)@[i] == 0 ==> old(state)@[i]
                    == 0,
            r.0 is Ok ==> {
                &&& colors_ok(final(state)@)
                &&& final(state)@[id.0 as int] == 2
                &&& forall|i: int|
                    0 <= i < final(state).len() ==> (#[trigger] final(state)@[i] == 1
                        <==> old(state)@[i] == 1)
                &&& forall|i: int|
                    0 <= i < final(state).len() && #[trigger] old(state)@[i] == 2
                        ==> final(state)@[i] == 2 && r.1@.0[i] == fin0[i]
                &&& finished_closed(self.types@, final(state)@, r.1@.0, r.1@.1)
                &&& r.1@.1 >= clock0
            },
            r.0 matches Err(k) ==> !acyclic(self.types@) && k.0 < self.types.len() && contains_itself(
                self.types@,
                k.0 as int,
            ),
        decreases count_unvisited(old(state)@),
    {
        let ghost start = state@;
        let ghost types = self.types@;
        let ghost n = types.len();
        let ghost mut fin = fin0;
        let ghost mut clock = clock0;
        proof {
            lemma_count_mark(state@, id.0 as int, 1u8);
        }
        state.set(id.0, 1);
        let deps = self.contained_user_types(&self.types[id.0]);
        proof {
            if acyclic(types) {
                lemma_rank(types);
                lemma_def_below_refs(types[id.0 as int], n, rank_of(types), rank_of(types)[id.0 as int]);
            }
        }
        let mut j: usize = 0;
        while j < deps.len()
            invariant
                types == self.types@,
                n == types.len(),
                refs_in_range(types),
                id.0 < n,
                deps@ == contained_ids(types[id.0 as int]),
                j <= deps.len(),
                state.len() == n,
                start.len() == n,
                start == old(state)@,
                colors_ok(state@),
                state@[id.0 as int] == 1,
                count_unvisited(state@) < count_unvisited(start),
                forall|i: int| 0 <= i < n && #[trigger] state@[i] == 0 ==> start[i] == 0,
                forall|i: int|
                    0 <= i < n ==> (#[trigger] state@[i] == 1 <==> (i == id.0 || start[i] == 1)),
                forall|i: int|
                    0 <= i < n && #[trigger] start[i] == 2 ==> state@[i] == 2 && fin[i] == fin0[i],
                forall|k: int| 0 <= k < j ==> state@[(#[trigger] deps@[k]).0 as int] == 2,
                finished_closed(types, state@, fin, clock),
                clock >= clock0,
                path_above(types, start, id.0 as int),
                is_chain(types, path.push(id.0 as int)),
                forall|g: int| 0 <= g < n ==> (#[trigger] start[g] == 1 <==> path.contains(g)),
                acyclic(types) ==> def_below(types[id.0 as int], n, rank_of(types), rank_of(types)[id.0 as int]),
                acyclic(types) ==> forall|k: int|
                    0 <= k < deps.len() ==> id_below(
                        #[trigger] deps@[k],
                        n,
                        rank_of(types),
                        rank_of(types)[id.0 as int],
                    ),
            decreases deps.len() - j,
        {
            let dep = deps[j];
            assert(dep.0 < n) by {
                assert(contained_ids(types[id.0 as int])[j as int] == dep);
            }
            proof {
                assert(holds(types, id.0 as int, dep.0 as int)) by {
                    assert(contained_ids(types[id.0 as int])[j as int] == dep);
                }
            }
            if state[dep.0] == 1 {
                proof {
                    if acyclic(types) {
                        assert(id_below(deps@[j as int], n, rank_of(types), rank_of(types)[id.0 as int]));
                        if dep.0 != id.0 {
                            assert(start[dep.0 as int] == 1);
                        }
                    }
                    let full = path.push(id.0 as int);
                    let at: int = if dep.0 == id.0 {
                        full.len() - 1
                    } else {
                        assert(start[dep.0 as int] == 1);
                        assert(path.contains(dep.0 as int));
                        choose|at: int| 0 <= at < path.len() && path[at] == dep.0 as int
                    };
                    assert(full[at] == dep.0 as int);
                    let cycle = seq![id.0 as int] + full.subrange(at, full.len() as int);
                    assert(cycle[1] == dep.0 as int);
                    assert forall|i: int| 0 <= i < cycle.len() - 1 implies holds(
                        types,
                        #[trigger] cycle[i],
                        cycle[i + 1],
                    ) by {
                        if i > 0 {
                            assert(cycle[i] == full[at + i - 1]);
                            assert(cycle[i + 1] == full[at + i]);
                            assert(holds(types, full[at + i - 1], full[at + i - 1 + 1]));
                        }
                    }
                    assert(cycle.last() == id.0 as int);
                    assert(is_chain(types, cycle) && cycle.len() >= 2 && cycle[0] == id.0 as int);
                }
                return (Err(id), Ghost((fin, clock)));
            }
            if state[dep.0] == 0 {
                assert(path_above(types, state@, dep.0 as int)) by {
                    if acyclic(types) {
                        assert(id_below(deps@[j as int], n, rank_of(types), rank_of(types)[id.0 as int]));
                        assert forall|g: int|
                            0 <= g < state@.len() && #[trigger] state@[g] == 1 implies rank_of(types)[g]
                            > rank_of(types)[dep.0 as int] by {
                            if g != id.0 {
                                assert(start[g] == 1);
                            }
                        }
                    }
                }
                let ghost before = state@;
                proof {
                    let full = path.push(id.0 as int);
                    let longer = full.push(dep.0 as int);
                    assert forall|i: int| 0 <= i < longer.len() - 1 implies holds(
                        types,
                        #[trigger] longer[i],
                        longer[i + 1],
                    ) by {
                        if i < full.len() - 1 {
                            assert(longer[i] == full[i] && longer[i + 1] == full[i + 1]);
                        }
                    }
                    assert forall|g: int| 0 <= g < state@.len() implies (#[trigger] state@[g] == 1
                        <==> full.contains(g)) by {
                        if state@[g] == 1 {
                            if g == id.0 {
                                assert(full[full.len() - 1] == g);
                            } else {
                                assert(path.contains(g));
                                let at = choose|at: int| 0 <= at < path.len() && path[at] == g;
                                assert(full[at] == g);
                            }
                        }
                        if full.contains(g) {
                            let at = choose|at: int| 0 <= at < full.len() && full[at] == g;
                            if at < path.len() {
                                assert(path[at] == g);
                                assert(path.contains(g));
                            }
                        }
                    }
                }
                let (found, Ghost(next)) = self.visit_layout(
                    dep,
                    state,
                    Ghost(fin),
                    Ghost(clock),
                    Ghost(path.push(id.0 as int)),
                );
                proof {
                    fin = next.0;
                    clock = next.1;
                }
                match found {
                    Err(k) => {
                        return (Err(k), Ghost((fin, clock)));
                    },
                    Ok(()) => {},
                }
                assert forall|k: int| 0 <= k < j + 1 implies state@[(#[trigger] deps@[k]).0 as int] == 2 by {
                    if k < j {
                        assert(before[deps@[k].0 as int] == 2);
                    }
                }
            }
            j = j + 1;
        }
        let ghost mid = state@;
        let ghost mid_fin = fin;
        let ghost mid_clock = clock;
        proof {
            fin = fin.update(id.0 as int, clock);
            clock = clock + 1;
        }
        state.set(id.0, 2);
        proof {
            lemma_count_shrinks(start, state@);
            assert forall|i: int|
                #![trigger state@[i]]
                0 <= i < n && state@[i] == 2 implies {
                &&& fin[i] < clock
                &&& forall|k: int|
                    0 <= k < contained_ids(types[i]).len() ==> {
                        let d = (#[trigger] contained_ids(types[i])[k]).0 as int;
                        state@[d] == 2 && fin[d] < fin[i]
                    }
            } by {
                if i == id.0 {
                    assert forall|k: int| 0 <= k < contained_ids(types[i]).len() implies {
                        let d = (#[trigger] contained_ids(types[i])[k]).0 as int;
                        state@[d] == 2 && fin[d] < fin[i]
                    } by {
                        let d = contained_ids(types[i])[k].0 as int;
                        assert(deps@[k] == contained_ids(types[i])[k]);
                        assert(mid[d] == 2);
                    }
                } else {
                    assert(mid[i] == 2);
                    assert forall|k: int| 0 <= k < contained_ids(types[i]).len() implies {
                        let d = (#[trigger] contained_ids(types[i])[k]).0 as int;
                        state@[d] == 2 && fin[d] < fin[i]
                    } by {
                        let d = contained_ids(types[i])[k].0 as int;
                        assert(mid[d] == 2 && mid_fin[d] < mid_fin[i]);
                    }
                }
            }
            assert(finished_closed(types, state@, fin, clock));
        }
        (Ok(()), Ghost((fin, clock)))
    }

    /// Checks that definition `root` does not contain itself by value,
    /// directly or through other definitions; pointers and slices break
    /// containment.
    pub fn ensure_acyclic(&self, root: TypeId) -> (r: Result<(), String>)
        requires
            self.tables_wf(),
            root.0 < self.types.len(),
        ensures
            r is Ok <==> !contains_itself(self.types@, root.0 as int),
            r matches Err(m) ==> m@ == cycle_text(key_text(self.type_keys@[root.0 as int])),
    {
        let ghost types = self.types@;
        let n = self.types.len();
        let ghost r = root.0 as int;
        let mut seen: Vec<u8> = Vec::new();
        let mut i: usize = 0;
        while i < n
            invariant
                i <= n,
                seen@ == Seq::new(i as nat, |_k: int| 0u8),
            decreases n - i,
        {
            seen.push(0);
            i = i + 1;
        }
        proof {
            lemma_count_mark(seen@, r, 1u8);
        }
        seen.set(root.0, 1);
        let mut stack: Vec<usize> = Vec::new();
        stack.push(root.0);
        let ghost mut done: Seq<bool> = Seq::new(n as nat, |_k: int| false);
        let ghost mut reach: Seq<Seq<int>> = Seq::new(n as nat, |_k: int| seq![r]);
        assert(stack@[0] == root.0);
        assert(is_chain(types, reach[r]));
        while stack.len() > 0
            invariant
                types == self.types@,
                n == types.len(),
                self.tables_wf(),
                0 <= r < n,
                r == root.0,
                seen.len() == n,
                done.len() == n,
                reach.len() == n,
                seen@[r] == 1,
                forall|s: int| 0 <= s < n ==> #[trigger] seen@[s] <= 1,
                forall|s: int|
                    0 <= s < n && #[trigger] seen@[s] == 1 ==> is_chain(types, reach[s])
                        && reach[s].len() >= 1 && reach[s][0] == r && reach[s].last() == s,
                forall|k: int| 0 <= k < stack.len() ==> (#[trigger] stack@[k]) < n && seen@[stack@[k] as int] == 1,
                forall|k: int| 0 <= k < stack.len() ==> !done[(#[trigger] stack@[k]) as int],
                forall|a: int, b: int| 0 <= a < b < stack.len() ==> (#[trigger] stack@[a]) != (#[trigger] stack@[b]),
                forall|s: int|
                    0 <= s < n && #[trigger] seen@[s] == 1 ==> done[s] || stack@.contains(s as usize),
                forall|s: int| 0 <= s < n && #[trigger] done[s] ==> seen@[s] == 1,
                forall|s: int, k: int|
                    0 <= s < n && done[s] && 0 <= k < contained_ids(types[s]).len() ==> {
                        let d = (#[trigger] contained_ids(types[s])[k]).0 as int;
                        seen@[d] == 1 && d != r
                    },
            decreases 2 * count_unvisited(seen@) + stack.len(),
        {
            let ghost before_pop = stack@;
            let ghost measure0 = 2 * count_unvisited(seen@) + stack.len();
            let id = stack.pop().unwrap();
            proof {
                assert(before_pop == stack@.push(id));
                assert forall|s: int|
                    0 <= s < n && #[trigger] seen@[s] == 1 implies done[s] || stack@.contains(s as usize)
                        || s == id by {
                    if !done[s] && s != id {
                        assert(before_pop.contains(s as usize));
                        let at = choose|at: int| 0 <= at < before_pop.len() && before_pop[at] == s as usize;
                        if at < stack@.len() {
                            assert(stack@[at] == s as usize);
                        } else {
                            assert(before_pop[at] == id);
                        }
                    }
                }
                assert(before_pop[before_pop.len() - 1] == id);
                assert(!done[id as int]);
                assert forall|k: int| 0 <= k < stack.len() implies (#[trigger] stack@[k]) != id by {
                    assert(before_pop[k] == stack@[k]);
                    assert(before_pop[before_pop.len() - 1] == id);
                }
            }
            let deps = self.contained_user_types(&self.types[id]);
            let mut j: usize = 0;
            while j < deps.len()
                invariant
                    types == self.types@,
                    n == types.len(),
                    self.tables_wf(),
                    0 <= r < n,
                    r == root.0,
                    id < n,
                    seen@[id as int] == 1,
                    !done[id as int],
                    deps@ == contained_ids(types[id as int]),
                    j <= deps.len(),
                    seen.len() == n,
                    done.len() == n,
                    reach.len() == n,
                    seen@[r] == 1,
                    2 * count_unvisited(seen@) + stack.len() < measure0,
                    forall|s: int| 0 <= s < n ==> #[trigger] seen@[s] <= 1,
                    forall|s: int|
                        0 <= s < n && #[trigger] seen@[s] == 1 ==> is_chain(types, reach[s])
                            && reach[s].len() >= 1 && reach[s][0] == r && reach[s].last() == s,
                    forall|k: int| 0 <= k < stack.len() ==> (#[trigger] stack@[k]) < n && seen@[stack@[k] as int] == 1,
                    forall|k: int| 0 <= k < stack.len() ==> !done[(#[trigger] stack@[k]) as int],
                    forall|k: int| 0 <= k < stack.len() ==> (#[trigger] stack@[k]) != id,
                    forall|a: int, b: int| 0 <= a < b < stack.len() ==> (#[trigger] stack@[a]) != (#[trigger] stack@[b]),
                    forall|s: int|
                        0 <= s < n && #[trigger] seen@[s] == 1 ==> done[s] || stack@.contains(s as usize)
                            || s == id,
                    forall|s: int| 0 <= s < n && #[trigger] done[s] ==> seen@[s] == 1,
                    forall|s: int, k: int|
                        0 <= s < n && done[s] && 0 <= k < contained_ids(types[s]).len() ==> {
                            let d = (#[trigger] contained_ids(types[s])[k]).0 as int;
                            seen@[d] == 1 && d != r
                        },
                    forall|k: int|
                        0 <= k < j ==> seen@[(#[trigger] deps@[k]).0 as int] == 1 && deps@[k].0 != r,
                decreases deps.len() - j,
            {
                let dep = deps[j].0;
                assert(dep < n) by {
                    assert(contained_ids(types[id as int])[j as int] == deps@[j as int]);
                }
                assert(holds(types, id as int, dep as int)) by {
                    assert(contained_ids(types[id as int])[j as int] == deps@[j as int]);
                }
                if dep == root.0 {
                    proof {
                        let chain = reach[id as int].push(r);
                        let base = reach[id as int];
                        assert forall|x: int| 0 <= x < chain.len() - 1 implies holds(
                            types,
                            #[trigger] chain[x],
                            chain[x + 1],
                        ) by {
                            if x < base.len() - 1 {
                                assert(chain[x] == base[x] && chain[x + 1] == base[x + 1]);
                                assert(holds(types, base[x], base[x + 1]));
                            } else {
                                assert(chain[x] == id);
                                assert(chain[x + 1] == r);
                            }
                        }
                        assert(chain[0] == r && chain.last() == r && chain.len() >= 2);
                        assert(is_chain(types, chain));
                    }
                    let name = self.type_display(root);
                    let mut m = String::new();
                    push_str(&mut m, "recursive layout: type `");
                    push_str(&mut m, name.as_str());
                    push_str(&mut m, "` contains itself by value");
                    return Err(m);
                }
                if seen[dep] == 0 {
                    let ghost before = seen@;
                    let ghost before_stack = stack@;
                    proof {
                        lemma_count_mark(seen@, dep as int, 1u8);
                        let base = reach[id as int];
                        let chain = base.push(dep as int);
                        assert forall|x: int| 0 <= x < chain.len() - 1 implies holds(
                            types,
                            #[trigger] chain[x],
                            chain[x + 1],
                        ) by {
                            if x < base.len() - 1 {
                                assert(chain[x] == base[x] && chain[x + 1] == base[x + 1]);
                                assert(holds(types, base[x], base[x + 1]));
                            } else {
                                assert(chain[x] == id);
                            }
                        }
                        reach = reach.update(dep as int, chain);
                    }
                    seen.set(dep, 1);
                    stack.push(dep);
                    proof {
                        assert forall|s: int|
                            0 <= s < n && #[trigger] seen@[s] == 1 implies done[s] || stack@.contains(
                                s as usize,
                            ) || s == id by {
                            if s == dep {
                                assert(stack@[stack@.len() - 1] == dep);
                            } else if !done[s] && s != id {
                                assert(before[s] == 1);
                                assert(before_stack.contains(s as usize));
                                let at = choose|at: int|
                                    0 <= at < before_stack.len() && before_stack[at] == s as usize;
                                assert(stack@[at] == s as usize);
                            }
                        }
                        assert forall|k: int| 0 <= k < stack.len() implies (#[trigger] stack@[k]) < n
                            && seen@[stack@[k] as int] == 1 && !done[stack@[k] as int] && stack@[k] != id by {
                            if k < before_stack.len() {
                                assert(stack@[k] == before_stack[k]);
                            }
                        }
                        assert forall|a: int, b: int| 0 <= a < b < stack.len() implies (#[trigger] stack@[a])
                            != (#[trigger] stack@[b]) by {
                            if b < before_stack.len() {
                                assert(stack@[a] == before_stack[a] && stack@[b] == before_stack[b]);
                            } else {
                                assert(stack@[a] == before_stack[a]);
                                assert(seen@[before_stack[a] as int] == 1);
                            }
                        }
                    }
                }
                j = j + 1;
            }
            proof {
                done = done.update(id as int, true);
            }
        }
        proof {
            let marked = Seq::new(n as nat, |s: int| seen@[s] == 1);
            assert forall|s: int| 0 <= s < n && #[trigger] marked[s] implies done[s] by {
                assert(seen@[s] == 1);
                assert(!stack@.contains(s as usize));
            }
            assert forall|s: int, k: int|
                0 <= s < marked.len() && marked[s] && 0 <= k < contained_ids(types[s]).len() implies {
                let d = (#[trigger] contained_ids(types[s])[k]).0 as int;
                0 <= d < marked.len() && marked[d] && d != r
            } by {
                assert(done[s]);
                let d = contained_ids(types[s])[k].0 as int;
                assert(seen@[d] == 1);
            }
            crate::type_graph::lemma_closed_no_cycle(types, marked, r);
        }
        Ok(())
    }
}


/// Each built-in type name denotes the type of the same spelling; the C
/// names denote the integer of the C type's width, `c_long` and `c_ulong`
/// following the host's `long`.
pub proof fn builtin_names_denote_their_types(c_long_bytes: u64)
    ensures
        builtin_type_of("i8"@, c_long_bytes) == Some(Type::I8),
        builtin_type_of("i16"@, c_long_bytes) == Some(Type::I16),
        builtin_type_of("i32"@, c_long_bytes) == Some(Type::I32),
        builtin_type_of("i64"@, c_long_bytes) == Some(Type::I64),
        builtin_type_of("u8"@, c_long_bytes) == Some(Type::U8),
        builtin_type_of("u16"@, c_long_bytes) == Some(Type::U16),
        builtin_type_of("u32"@, c_long_bytes) == Some(Type::U32),
        builtin_type_of("u64"@, c_long_bytes) == Some(Type::U64),
        builtin_type_of("usize"@, c_long_bytes) == Some(Type::Usize),
        builtin_type_of("isize"@, c_long_bytes) == Some(Type::Isize),
        builtin_type_of("f32"@, c_long_bytes) == Some(Type::F32),
        builtin_type_of("f64"@, c_long_bytes) == Some(Type::F64),
        builtin_type_of("char"@, c_long_bytes) == Some(Type::Char),
        builtin_type_of("bool"@, c_long_bytes) == Some(Type::Bool),
        builtin_type_of("string"@, c_long_bytes) == Some(Type::String),
        builtin_type_of("Unit"@, c_long_bytes) == Some(Type::Unit),
        builtin_type_of("c_int"@, c_long_bytes) == Some(Type::I32),
        builtin_type_of("c_uint"@, c_long_bytes) == Some(Type::U32),
        builtin_type_of("c_char"@, c_long_bytes) == Some(Type::I8),
        builtin_type_of("c_long"@, 8) == Some(Type::I64),
        builtin_type_of("c_long"@, 4) == Some(Type::I32),
        builtin_type_of("c_ulong"@, 8) == Some(Type::U64),
        builtin_type_of("c_ulong"@, 4) == Some(Type::U32),
{
    reveal_strlit("i8");
    reveal_strlit("i16");
    reveal_strlit("i32");
    reveal_strlit("i64");
    reveal_strlit("u8");
    reveal_strlit("u16");
    reveal_strlit("u32");
    reveal_strlit("u64");
    reveal_strlit("usize");
    reveal_strlit("isize");
    reveal_strlit("f32");
    reveal_strlit("f64");
    reveal_strlit("char");
    reveal_strlit("bool");
    reveal_strlit("string");
    reveal_strlit("c_int");
    reveal_strlit("c_uint");
    reveal_strlit("c_char");
    reveal_strlit("c_long");
    reveal_strlit("c_ulong");
    reveal_strlit("Unit");
    assert("i8"@[0] != "u8"@[0]);
    assert("i16"@[1] != "i32"@[1]);
    assert("i16"@[1] != "i64"@[1]);
    assert("i16"@[0] != "u16"@[0]);
    assert("i16"@[0] != "u32"@[0]);
    assert("i16"@[0] != "u64"@[0]);
    assert("i16"@[0] != "f32"@[0]);
    assert("i16"@[0] != "f64"@[0]);
    assert("i32"@[1] != "i64"@[1]);
    assert("i32"@[0] != "u16"@[0]);
    assert("i32"@[0] != "u32"@[0]);
    assert("i32"@[0] != "u64"@[0]);
    assert("i32"@[0] != "f32"@[0]);
    assert("i32"@[0] != "f64"@[0]);
    assert("i64"@[0] != "u16"@[0]);
    assert("i64"@[0] != "u32"@[0]);
    assert("i64"@[0] != "u64"@[0]);
    assert("i64"@[0] != "f32"@[0]);
    assert("i64"@[0] != "f64"@[0]);
    assert("u16"@[1] != "u32"@[1]);
    assert("u16"@[1] != "u64"@[1]);
    assert("u16"@[0] != "f32"@[0]);
    assert("u16"@[0] != "f64"@[0]);
    assert("u32"@[1] != "u64"@[1]);
    assert("u32"@[0] != "f32"@[0]);
    assert("u32"@[0] != "f64"@[0]);
    assert("u64"@[0] != "f32"@[0]);
    assert("u64"@[0] != "f64"@[0]);
    assert("usize"@[0] != "isize"@[0]);
    assert("usize"@[0] != "c_int"@[0]);
    assert("isize"@[0] != "c_int"@[0]);
    assert("f32"@[1] != "f64"@[1]);
    assert("char"@[0] != "bool"@[0]);
    assert("char"@[0] != "Unit"@[0]);
    assert("bool"@[0] != "Unit"@[0]);
    assert("string"@[0] != "c_uint"@[0]);
    assert("string"@[0] != "c_char"@[0]);
    assert("string"@[0] != "c_long"@[0]);
    assert("c_uint"@[2] != "c_char"@[2]);
    assert("c_uint"@[2] != "c_long"@[2]);
    assert("c_char"@[2] != "c_long"@[2]);
    assert("i8"@.len() != "i16"@.len());
    assert("i8"@.len() != "i32"@.len());
    assert("i8"@.len() != "i64"@.len());
    assert("i8"@.len() != "u16"@.len());
    assert("i8"@.len() != "u32"@.len());
    assert("i8"@.len() != "u64"@.len());
    assert("i8"@.len() != "usize"@.len());
    assert("i8"@.len() != "isize"@.len());
    assert("i8"@.len() != "f32"@.len());
    assert("i8"@.len() != "f64"@.len());
    assert("i8"@.len() != "char"@.len());
    assert("i8"@.len() != "bool"@.len());
    assert("i8"@.len() != "string"@.len());
    assert("i8"@.len() != "c_int"@.len());
    assert("i8"@.len() != "c_uint"@.len());
    assert("i8"@.len() != "c_char"@.len());
    assert("i8"@.len() != "c_long"@.len());
    assert("i8"@.len() != "c_ulong"@.len());
    assert("i8"@.len() != "Unit"@.len());
    assert("i16"@.len() != "u8"@.len());
    assert("i16"@.len() != "usize"@.len());
    assert("i16"@.len() != "isize"@.len());
    assert("i16"@.len() != "char"@.len());
    assert("i16"@.len() != "bool"@.len());
    assert("i16"@.len() != "string"@.len());
    assert("i16"@.len() != "c_int"@.len());
    assert("i16"@.len() != "c_uint"@.len());
    assert("i16"@.len() != "c_char"@.len());
    assert("i16"@.len() != "c_long"@.len());
    assert("i16"@.len() != "c_ulong"@.len());
    assert("i16"@.len() != "Unit"@.len());
    assert("i32"@.len() != "u8"@.len());
    assert("i32"@.len() != "usize"@.len());
    assert("i32"@.len() != "isize"@.len());
    assert("i32"@.len() != "char"@.len());
    assert("i32"@.len() != "bool"@.len());
    assert("i32"@.len() != "string"@.len());
    assert("i32"@.len() != "c_int"@.len());
    assert("i32"@.len() != "c_uint"@.len());
    assert("i32"@.len() != "c_char"@.len());
    assert("i32"@.len() != "c_long"@.len());
    assert("i32"@.len() != "c_ulong"@.len());
    assert("i32"@.len() != "Unit"@.len());
    assert("i64"@.len() != "u8"@.len());
    assert("i64"@.len() != "usize"@.len());
    assert("i64"@.len() != "isize"@.len());
    assert("i64"@.len() != "char"@.len());
    assert("i64"@.len() != "bool"@.len());
    assert("i64"@.len() != "string"@.len());
    assert("i64"@.len() != "c_int"@.len());
    assert("i64"@.len() != "c_uint"@.len());
    assert("i64"@.len() != "c_char"@.len());
    assert("i64"@.len() != "c_long"@.len());
    assert("i64"@.len() != "c_ulong"@.len());
    assert("i64"@.len() != "Unit"@.len());
    assert("u8"@.len() != "u16"@.len());
    assert("u8"@.len() != "u32"@.len());
    assert("u8"@.len() != "u64"@.len());
    assert("u8"@.len() != "usize"@.len());
    assert("u8"@.len() != "isize"@.len());
    assert("u8"@.len() != "f32"@.len());
    assert("u8"@.len() != "f64"@.len());
    assert("u8"@.len() != "char"@.len());
    assert("u8"@.len() != "bool"@.len());
    assert("u8"@.len() != "string"@.len());
    assert("u8"@.len() != "c_int"@.len());
    assert("u8"@.len() != "c_uint"@.len());
    assert("u8"@.len() != "c_char"@.len());
    assert("u8"@.len() != "c_long"@.len());
    assert("u8"@.len() != "c_ulong"@.len());
    assert("u8"@.len() != "Unit"@.len());
    assert("u16"@.len() != "usize"@.len());
    assert("u16"@.len() != "isize"@.len());
    assert("u16"@.len() != "char"@.len());
    assert("u16"@.len() != "bool"@.len());
    assert("u16"@.len() != "string"@.len());
    assert("u16"@.len() != "c_int"@.len());
    assert("u16"@.len() != "c_uint"@.len());
    assert("u16"@.len() != "c_char"@.len());
    assert("u16"@.len() != "c_long"@.len());
    assert("u16"@.len() != "c_ulong"@.len());
    assert("u16"@.len() != "Unit"@.len());
    assert("u32"@.len() != "usize"@.len());
    assert("u32"@.len() != "isize"@.len());
    assert("u32"@.len() != "char"@.len());
    assert("u32"@.len() != "bool"@.len());
    assert("u32"@.len() != "string"@.len());
    assert("u32"@.len() != "c_int"@.len());
    assert("u32"@.len() != "c_uint"@.len());
    assert("u32"@.len() != "c_char"@.len());
    assert("u32"@.len() != "c_long"@.len());
    assert("u32"@.len() != "c_ulong"@.len());
    assert("u32"@.len() != "Unit"@.len());
    assert("u64"@.len() != "usize"@.len());
    assert("u64"@.len() != "isize"@.len());
    assert("u64"@.len() != "char"@.len());
    assert("u64"@.len() != "bool"@.len());
    assert("u64"@.len() != "string"@.len());
    assert("u64"@.len() != "c_int"@.len());
    assert("u64"@.len() != "c_uint"@.len());
    assert("u64"@.len() != "c_char"@.len());
    assert("u64"@.len() != "c_long"@.len());
    assert("u64"@.len() != "c_ulong"@.len());
    assert("u64"@.len() != "Unit"@.len());
    assert("usize"@.len() != "f32"@.len());
    assert("usize"@.len() != "f64"@.len());
    assert("usize"@.len() != "char"@.len());
    assert("usize"@.len() != "bool"@.len());
    assert("usize"@.len() != "string"@.len());
    assert("usize"@.len() != "c_uint"@.len());
    assert("usize"@.len() != "c_char"@.len());
    assert("usize"@.len() != "c_long"@.len());
    assert("usize"@.len() != "c_ulong"@.len());
    assert("usize"@.len() != "Unit"@.len());
    assert("isize"@.len() != "f32"@.len());
    assert("isize"@.len() != "f64"@.len());
    assert("isize"@.len() != "char"@.len());
    assert("isize"@.len() != "bool"@.len());
    assert("isize"@.len() != "string"@.len());
    assert("isize"@.len() != "c_uint"@.len());
    assert("isize"@.len() != "c_char"@.len());
    assert("isize"@.len() != "c_long"@.len());
    assert("isize"@.len() != "c_ulong"@.len());
    assert("isize"@.len() != "Unit"@.len());
    assert("f32"@.len() != "char"@.len());
    assert("f32"@.len() != "bool"@.len());
    assert("f32"@.len() != "string"@.len());
    assert("f32"@.len() != "c_int"@.len());
    assert("f32"@.len() != "c_uint"@.len());
    assert("f32"@.len() != "c_char"@.len());
    assert("f32"@.len() != "c_long"@.len());
    assert("f32"@.len() != "c_ulong"@.len());
    assert("f32"@.len() != "Unit"@.len());
    assert("f64"@.len() != "char"@.len());
    assert("f64"@.len() != "bool"@.len());
    assert("f64"@.len() != "string"@.len());
    assert("f64"@.len() != "c_int"@.len());
    assert("f64"@.len() != "c_uint"@.len());
    assert("f64"@.len() != "c_char"@.len());
    assert("f64"@.len() != "c_long"@.len());
    assert("f64"@.len() != "c_ulong"@.len());
    assert("f64"@.len() != "Unit"@.len());
    assert("char"@.len() != "string"@.len());
    assert("char"@.len() != "c_int"@.len());
    assert("char"@.len() != "c_uint"@.len());
    assert("char"@.len() != "c_char"@.len());
    assert("char"@.len() != "c_long"@.len());
    assert("char"@.len() != "c_ulong"@.len());
    assert("bool"@.len() != "string"@.len());
    assert("bool"@.len() != "c_int"@.len());
    assert("bool"@.len() != "c_uint"@.len());
    assert("bool"@.len() != "c_char"@.len());
    assert("bool"@.len() != "c_long"@.len());
    assert("bool"@.len() != "c_ulong"@.len());
    assert("string"@.len() != "c_int"@.len());
    assert("string"@.len() != "c_ulong"@.len());
    assert("string"@.len() != "Unit"@.len());
    assert("c_int"@.len() != "c_uint"@.len());
    assert("c_int"@.len() != "c_char"@.len());
    assert("c_int"@.len() != "c_long"@.len());
    assert("c_int"@.len() != "c_ulong"@.len());
    assert("c_int"@.len() != "Unit"@.len());
    assert("c_uint"@.len() != "c_ulong"@.len());
    assert("c_uint"@.len() != "Unit"@.len());
    assert("c_char"@.len() != "c_ulong"@.len());
    assert("c_char"@.len() != "Unit"@.len());
    assert("c_long"@.len() != "c_ulong"@.len());
    assert("c_long"@.len() != "Unit"@.len());
    assert("c_ulong"@.len() != "Unit"@.len());
}


/// What crosses the C boundary by value: every integer and float type, and
/// a pointer exactly when what it points to may be named in C; `bool`,
/// `char`, `string`, `Unit`, `null`, slices, arrays and structs never do.
/// A pointer may point to a number, to `Unit` (C `void`), to an `extern
/// struct` or to another such pointer, but not to `bool`, `char` or a
/// `string`.
pub proof fn c_boundary_types(types: Seq<TypeDef>, t: Type)
    ensures
        (t == Type::I8 || t == Type::I16 || t == Type::I32 || t == Type::I64 || t == Type::U8 || t == Type::U16 || t == Type::U32 || t == Type::U64 || t == Type::Usize || t == Type::Isize || t == Type::F32 || t == Type::F64) ==> c_value_type(types, t) && c_pointee(types, t) && extern_field_ok(types, t),
        !c_value_type(types, Type::Bool) && !c_value_type(types, Type::Char) && !c_value_type(types, Type::String)
            && !c_value_type(types, Type::Unit) && !c_value_type(types, Type::Null),
        !c_pointee(types, Type::Bool) && !c_pointee(types, Type::Char) && !c_pointee(types, Type::String),
        c_pointee(types, Type::Unit),
        forall|pointee: Box<Type>, mutable: bool|
            #[trigger] c_value_type(types, Type::Ptr { pointee, mutable }) <==> c_pointee(types, *pointee),
        forall|element: Box<Type>, mutable: bool| !#[trigger] c_value_type(types, Type::Slice { element, mutable }),
        forall|id: TypeId| !#[trigger] c_value_type(types, Type::Struct(id)),
        forall|id: TypeId| !#[trigger] c_value_type(types, Type::Enum(id)),
{
}

} // verus!
