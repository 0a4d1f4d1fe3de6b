//! The first pass of module resolution: every unit's functions, types
//! (structs, then enums) and traits under their qualified names, refusing a
//! user module in the reserved `std` namespace, a function named like a
//! built-in, and a qualified name defined twice in one namespace; then a
//! unit's `use` declarations resolved against those tables.
use vstd::prelude::*;

use crate::modules::{
    binding, display_module, dot_joined, import_path, imported_name, is_module_or_namespace, join_dots, lookup,
    module_or_namespace, prelude_path, qualified, qualify, resolve_import_path, resolve_imported,
    resolve_prelude_path, rsplit_once, split_at_last, ImportBinding,
};
use crate::paths::texts;
use crate::text::{push_str, str_eq};

verus! {

/// A name declared in a unit, and whether it is public.
#[derive(Debug, Clone)]
pub struct Declared {
    pub name: String,
    pub public: bool,
}

/// The declarations of one parsed source unit.
#[derive(Debug, Clone)]
pub struct UnitDeclarations {
    /// The unit's qualified module name (package prefix included).
    pub module: String,
    /// Whether the unit is standard library source shipped with the compiler.
    pub builtin: bool,
    pub functions: Vec<Declared>,
    pub structs: Vec<Declared>,
    pub enums: Vec<Declared>,
    pub traits: Vec<Declared>,
}

/// A definition under its qualified name.
#[derive(Debug, Clone)]
pub struct Definition {
    pub qualified: String,
    pub name: String,
    pub module: String,
    pub public: bool,
}

impl View for Definition {
    type V = (Seq<char>, Seq<char>, Seq<char>, bool);

    open spec fn view(&self) -> (Seq<char>, Seq<char>, Seq<char>, bool) {
        (self.qualified@, self.name@, self.module@, self.public)
    }
}

/// The three namespaces.
#[derive(Debug, Clone, Copy, PartialEq, Eq, Structural)]
pub enum DefinitionKind {
    Function,
    Type,
    Trait,
}

/// Where a declaration stands in its unit.
#[derive(Debug, Clone, Copy, PartialEq, Eq, Structural)]
pub enum DeclarationPlace {
    Function(usize),
    Struct(usize),
    Enum(usize),
    Trait(usize),
}

/// The declarations of `kind` in a unit, in order (structs before enums).
pub open spec fn kind_items(u: UnitDeclarations, kind: DefinitionKind) -> Seq<Declared> {
    match kind {
        DefinitionKind::Function => u.functions@,
        DefinitionKind::Type => u.structs@ + u.enums@,
        DefinitionKind::Trait => u.traits@,
    }
}

/// The definitions of `kind` that a unit makes.
pub open spec fn unit_definitions(u: UnitDeclarations, kind: DefinitionKind) -> Seq<
    (Seq<char>, Seq<char>, Seq<char>, bool),
> {
    kind_items(u, kind).map_values(
        |d: Declared| (qualified(u.module@, d.name@), d.name@, u.module@, d.public),
    )
}

/// The definitions of `kind` that the first `n` units make, in order.
pub open spec fn definitions_upto(units: Seq<UnitDeclarations>, kind: DefinitionKind, n: int) -> Seq<
    (Seq<char>, Seq<char>, Seq<char>, bool),
>
    decreases n,
{
    if n <= 0 || n > units.len() {
        seq![]
    } else {
        definitions_upto(units, kind, n - 1) + unit_definitions(units[n - 1], kind)
    }
}

/// All definitions of `kind`, in unit order.
pub open spec fn all_definitions(units: Seq<UnitDeclarations>, kind: DefinitionKind) -> Seq<
    (Seq<char>, Seq<char>, Seq<char>, bool),
> {
    definitions_upto(units, kind, units.len() as int)
}

/// The built-in functions that no unit may define.
pub open spec fn is_builtin_function_name(name: Seq<char>) -> bool {
    name == "print"@ || name == "println"@ || name == "length"@
}

/// Definition `k` is refused: a function named like a built-in, or a
/// qualified name that an earlier definition already has.
pub open spec fn refused(e: Seq<(Seq<char>, Seq<char>, Seq<char>, bool)>, kind: DefinitionKind, k: int) -> bool {
    (kind == DefinitionKind::Function && is_builtin_function_name(e[k].1)) || exists|j: int|
        0 <= j < k && (#[trigger] e[j]).0 == e[k].0
}

/// The first refused definition among the first `n`.
pub open spec fn first_refused(e: Seq<(Seq<char>, Seq<char>, Seq<char>, bool)>, kind: DefinitionKind, n: int) -> Option<
    int,
>
    decreases n,
{
    if n <= 0 {
        None
    } else if first_refused(e, kind, n - 1) is Some {
        first_refused(e, kind, n - 1)
    } else if refused(e, kind, n - 1) {
        Some(n - 1)
    } else {
        None
    }
}

/// The kind a place belongs to, and its index among the unit's
/// declarations of that kind.
pub open spec fn place_kind(place: DeclarationPlace) -> DefinitionKind {
    match place {
        DeclarationPlace::Function(_) => DefinitionKind::Function,
        DeclarationPlace::Struct(_) | DeclarationPlace::Enum(_) => DefinitionKind::Type,
        DeclarationPlace::Trait(_) => DefinitionKind::Trait,
    }
}

pub open spec fn place_index(u: UnitDeclarations, place: DeclarationPlace) -> int {
    match place {
        DeclarationPlace::Enum(i) => u.structs@.len() + i,
        DeclarationPlace::Function(i) | DeclarationPlace::Struct(i) | DeclarationPlace::Trait(i) => i as int,
    }
}

/// `place` names a declaration of unit `u`.
pub open spec fn place_in(u: UnitDeclarations, place: DeclarationPlace) -> bool {
    match place {
        DeclarationPlace::Function(i) => i < u.functions@.len(),
        DeclarationPlace::Struct(i) => i < u.structs@.len(),
        DeclarationPlace::Enum(i) => i < u.enums@.len(),
        DeclarationPlace::Trait(i) => i < u.traits@.len(),
    }
}

proof fn lemma_upto_prefix(units: Seq<UnitDeclarations>, kind: DefinitionKind, u: int, m: int)
    requires
        0 <= u <= m <= units.len(),
    ensures
        definitions_upto(units, kind, u).len() <= definitions_upto(units, kind, m).len(),
        definitions_upto(units, kind, m).take(definitions_upto(units, kind, u).len() as int)
            == definitions_upto(units, kind, u),
    decreases m - u,
{
    if u < m {
        lemma_upto_prefix(units, kind, u, m - 1);
        let a = definitions_upto(units, kind, u);
        let b = definitions_upto(units, kind, m - 1);
        let c = definitions_upto(units, kind, m);
        assert(c == b + unit_definitions(units[m - 1], kind));
        assert(c.take(a.len() as int) =~= b.take(a.len() as int));
    } else {
        assert(definitions_upto(units, kind, m).take(definitions_upto(units, kind, u).len() as int)
            =~= definitions_upto(units, kind, u));
    }
}

/// Definition `j` of unit `u` stands at `definitions_upto(.., u).len() + j`.
proof fn lemma_position(units: Seq<UnitDeclarations>, kind: DefinitionKind, u: int, j: int)
    requires
        0 <= u < units.len(),
        0 <= j < kind_items(units[u], kind).len(),
    ensures
        definitions_upto(units, kind, u).len() + j < all_definitions(units, kind).len(),
        all_definitions(units, kind)[definitions_upto(units, kind, u).len() + j] == unit_definitions(
            units[u],
            kind,
        )[j],
{
    lemma_upto_prefix(units, kind, u + 1, units.len() as int);
    let next = definitions_upto(units, kind, u + 1);
    assert(next == definitions_upto(units, kind, u) + unit_definitions(units[u], kind));
    let all = all_definitions(units, kind);
    assert(all.take(next.len() as int)[definitions_upto(units, kind, u).len() + j] == next[
        definitions_upto(units, kind, u).len() + j
    ]);
}

proof fn lemma_first_refused_at(e: Seq<(Seq<char>, Seq<char>, Seq<char>, bool)>, kind: DefinitionKind, k: int, n: int)
    requires
        0 <= k < n,
        first_refused(e, kind, k) is None,
        refused(e, kind, k),
    ensures
        first_refused(e, kind, n) == Some(k),
    decreases n - k,
{
    if n > k + 1 {
        lemma_first_refused_at(e, kind, k, n - 1);
    }
}

/// The views of a table's definitions.
pub open spec fn definition_views(t: Seq<Definition>) -> Seq<(Seq<char>, Seq<char>, Seq<char>, bool)> {
    t.map_values(|d: Definition| d@)
}

fn copied(s: &str) -> (r: String)
    ensures
        r@ == s@,
{
    let mut r = String::new();
    push_str(&mut r, s);
    r
}

fn is_builtin_function(name: &str) -> (r: bool)
    ensures
        r == is_builtin_function_name(name@),
{
    str_eq(name, "print") || str_eq(name, "println") || str_eq(name, "length")
}

/// Adds `items`, declared in `module`, which stand at `base..` among all
/// definitions `e`; `Err(j)` when item `j` is the first refused one.
fn add_items(
    table: &mut Vec<Definition>,
    module: &str,
    items: &Vec<Declared>,
    kind: DefinitionKind,
    Ghost(e): Ghost<Seq<(Seq<char>, Seq<char>, Seq<char>, bool)>>,
    Ghost(base): Ghost<int>,
) -> (r: Result<(), usize>)
    requires
        definition_views(old(table)@) == e.take(base),
        0 <= base,
        base + items@.len() <= e.len(),
        first_refused(e, kind, base) is None,
        forall|j: int|
            0 <= j < items@.len() ==> e[base + j] == (
                qualified(module@, (#[trigger] items@[j]).name@),
                items@[j].name@,
                module@,
                items@[j].public,
            ),
    ensures
        r is Ok ==> definition_views(final(table)@) == e.take(base + items@.len()) && first_refused(
            e,
            kind,
            base + items@.len(),
        ) is None,
        r matches Err(j) ==> j < items@.len() && first_refused(e, kind, e.len() as int) == Some(base + j),
{
    let mut j: usize = 0;
    while j < items.len()
        invariant
            0 <= base,
            base + items@.len() <= e.len(),
            j <= items@.len(),
            definition_views(table@) == e.take(base + j),
            first_refused(e, kind, base + j) is None,
            forall|i: int|
                0 <= i < items@.len() ==> e[base + i] == (
                    qualified(module@, (#[trigger] items@[i]).name@),
                    items@[i].name@,
                    module@,
                    items@[i].public,
                ),
        decreases items@.len() - j,
    {
        let item = &items[j];
        let ghost k: int = base + j;
        assert(e[k] == (qualified(module@, items@[j as int].name@), items@[j as int].name@, module@, items@[j as int].public));
        if kind == DefinitionKind::Function && is_builtin_function(item.name.as_str()) {
            proof {
                lemma_first_refused_at(e, kind, k, e.len() as int);
            }
            return Err(j);
        }
        let q = qualify(module, item.name.as_str());
        assert(definition_views(table@).len() == table@.len());
        let mut t: usize = 0;
        while t < table.len()
            invariant
                0 <= t <= table@.len(),
                table@.len() == k,
                k < e.len(),
                k == base + j,
                j < items@.len(),
                first_refused(e, kind, k) is None,
                definition_views(table@) == e.take(k),
                q@ == e[k].0,
                forall|i: int| 0 <= i < t ==> #[trigger] e[i].0 != e[k].0,
            decreases table@.len() - t,
        {
            assert(definition_views(table@)[t as int] == table@[t as int]@);
            assert(e.take(k)[t as int] == e[t as int]);
            if str_eq(table[t].qualified.as_str(), q.as_str()) {
                proof {
                    assert(e[t as int].0 == e[k].0);
                    assert(refused(e, kind, k));
                    lemma_first_refused_at(e, kind, k, e.len() as int);
                }
                return Err(j);
            }
            t = t + 1;
        }
        proof {
            assert(!refused(e, kind, k));
        }
        let definition = Definition {
            qualified: q,
            name: copied(item.name.as_str()),
            module: copied(module),
            public: item.public,
        };
        table.push(definition);
        assert(definition_views(table@) =~= e.take(k + 1));
        j = j + 1;
    }
    Ok(())
}

/// The definitions of `kind` over all units, in order; `Err((u, place))`
/// names the first refused declaration.
pub fn collect_definitions(units: &Vec<UnitDeclarations>, kind: DefinitionKind) -> (r: Result<
    Vec<Definition>,
    (usize, DeclarationPlace),
>)
    ensures
        r is Ok <==> first_refused(all_definitions(units@, kind), kind, all_definitions(units@, kind).len() as int) is None,
        r matches Ok(t) ==> definition_views(t@) == all_definitions(units@, kind),
        r matches Err((u, place)) ==> u < units@.len() && place_in(units@[u as int], place) && place_kind(place) == kind
            && first_refused(all_definitions(units@, kind), kind, all_definitions(units@, kind).len() as int) == Some(
            definitions_upto(units@, kind, u as int).len() + place_index(units@[u as int], place),
        ),
{
    let ghost e = all_definitions(units@, kind);
    let mut table: Vec<Definition> = Vec::new();
    assert(definition_views(table@) =~= e.take(0));
    let mut u: usize = 0;
    while u < units.len()
        invariant
            u <= units@.len(),
            e == all_definitions(units@, kind),
            definition_views(table@) == e.take(definitions_upto(units@, kind, u as int).len() as int),
            first_refused(e, kind, definitions_upto(units@, kind, u as int).len() as int) is None,
        decreases units@.len() - u,
    {
        let unit = &units[u];
        let ghost base = definitions_upto(units@, kind, u as int).len() as int;
        proof {
            lemma_upto_prefix(units@, kind, u + 1, units@.len() as int);
            assert(definitions_upto(units@, kind, u + 1) == definitions_upto(units@, kind, u as int)
                + unit_definitions(units@[u as int], kind));
            assert forall|j: int| 0 <= j < kind_items(units@[u as int], kind).len() implies e[base + j]
                == (qualified(unit.module@, (#[trigger] kind_items(*unit, kind)[j]).name@), kind_items(
                *unit,
                kind,
            )[j].name@, unit.module@, kind_items(*unit, kind)[j].public) by {
                lemma_position(units@, kind, u as int, j);
            }
        }
        match kind {
            DefinitionKind::Function => {
                proof {
                    assert forall|j: int| 0 <= j < unit.functions@.len() implies e[base + j] == (
                        qualified(unit.module@, (#[trigger] unit.functions@[j]).name@),
                        unit.functions@[j].name@,
                        unit.module@,
                        unit.functions@[j].public,
                    ) by {
                        assert(kind_items(*unit, kind)[j] == unit.functions@[j]);
                    }
                }
                if let Err(j) = add_items(&mut table, unit.module.as_str(), &unit.functions, kind, Ghost(e), Ghost(base)) {
                    return Err((u, DeclarationPlace::Function(j)));
                }
            },
            DefinitionKind::Type => {
                proof {
                    assert forall|j: int| 0 <= j < unit.structs@.len() implies e[base + j] == (
                        qualified(unit.module@, (#[trigger] unit.structs@[j]).name@),
                        unit.structs@[j].name@,
                        unit.module@,
                        unit.structs@[j].public,
                    ) by {
                        assert(kind_items(*unit, kind)[j] == unit.structs@[j]);
                    }
                }
                if let Err(j) = add_items(&mut table, unit.module.as_str(), &unit.structs, kind, Ghost(e), Ghost(base)) {
                    return Err((u, DeclarationPlace::Struct(j)));
                }
                proof {
                    assert forall|j: int| 0 <= j < unit.enums@.len() implies e[base + unit.structs@.len() + j]
                        == (qualified(unit.module@, (#[trigger] unit.enums@[j]).name@), unit.enums@[j].name@,
                        unit.module@, unit.enums@[j].public) by {
                        assert(kind_items(*unit, kind)[unit.structs@.len() + j] == unit.enums@[j]);
                    }
                }
                if let Err(j) = add_items(
                    &mut table,
                    unit.module.as_str(),
                    &unit.enums,
                    kind,
                    Ghost(e),
                    Ghost(base + unit.structs@.len()),
                ) {
                    return Err((u, DeclarationPlace::Enum(j)));
                }
            },
            DefinitionKind::Trait => {
                proof {
                    assert forall|j: int| 0 <= j < unit.traits@.len() implies e[base + j] == (
                        qualified(unit.module@, (#[trigger] unit.traits@[j]).name@),
                        unit.traits@[j].name@,
                        unit.module@,
                        unit.traits@[j].public,
                    ) by {
                        assert(kind_items(*unit, kind)[j] == unit.traits@[j]);
                    }
                }
                if let Err(j) = add_items(&mut table, unit.module.as_str(), &unit.traits, kind, Ghost(e), Ghost(base)) {
                    return Err((u, DeclarationPlace::Trait(j)));
                }
            },
        }
        u = u + 1;
    }
    assert(e.take(e.len() as int) =~= e);
    Ok(table)
}

/// The first segment of `m` (up to the first `.`) is `std`.
pub open spec fn in_std_namespace(m: Seq<char>) -> bool {
    m.len() >= 3 && m[0] == 's' && m[1] == 't' && m[2] == 'd' && (m.len() == 3 || m[3] == '.')
}

/// The first of the first `n` units that is not built in and whose module
/// lies in the `std` namespace.
pub open spec fn first_std_unit(units: Seq<UnitDeclarations>, n: int) -> Option<int>
    decreases n,
{
    if n <= 0 || n > units.len() {
        None
    } else if first_std_unit(units, n - 1) is Some {
        first_std_unit(units, n - 1)
    } else if !units[n - 1].builtin && in_std_namespace(units[n - 1].module@) {
        Some(n - 1)
    } else {
        None
    }
}

proof fn lemma_first_std_at(units: Seq<UnitDeclarations>, u: int, n: int)
    requires
        0 <= u < n <= units.len(),
        first_std_unit(units, u) is None,
        !units[u].builtin && in_std_namespace(units[u].module@),
    ensures
        first_std_unit(units, n) == Some(u),
    decreases n - u,
{
    if n > u + 1 {
        lemma_first_std_at(units, u, n - 1);
    }
}

fn is_in_std_namespace(m: &str) -> (r: bool)
    ensures
        r == in_std_namespace(m@),
{
    let n = m.unicode_len();
    if n < 3 {
        return false;
    }
    if m.get_char(0) != 's' || m.get_char(1) != 't' || m.get_char(2) != 'd' {
        return false;
    }
    n == 3 || m.get_char(3) == '.'
}

/// The function, type and trait tables of a set of units.
#[derive(Debug, Clone)]
pub struct DefinitionTables {
    pub functions: Vec<Definition>,
    pub types: Vec<Definition>,
    pub traits: Vec<Definition>,
}

/// Why the units' definitions cannot be collected.
#[derive(Debug, Clone, PartialEq, Eq)]
pub enum DefinitionError {
    /// A unit that is not built in lies in the reserved `std` namespace.
    ReservedNamespace { unit: usize, module: String },
    /// A function is named like a built-in function.
    ReservedFunction { unit: usize, place: DeclarationPlace, name: String },
    /// A qualified name is defined a second time in its namespace.
    AlreadyDefined { kind: DefinitionKind, unit: usize, place: DeclarationPlace, qualified: String },
}

/// The word for a namespace in messages.
pub open spec fn kind_word(kind: DefinitionKind) -> Seq<char> {
    match kind {
        DefinitionKind::Function => "function"@,
        DefinitionKind::Type => "type"@,
        DefinitionKind::Trait => "trait"@,
    }
}

impl DefinitionError {
    /// The diagnostic text.
    pub fn message(&self) -> (r: String)
        ensures
            r@ == match *self {
                DefinitionError::ReservedNamespace { module, .. } => "module `"@ + module@
                    + "` uses the reserved `std` namespace"@,
                DefinitionError::ReservedFunction { name, .. } => "`"@ + name@ + "` is a reserved built-in function"@,
                DefinitionError::AlreadyDefined { kind, qualified, .. } => kind_word(kind) + " `"@ + qualified@
                    + "` is already defined"@,
            },
    {
        let mut m = String::new();
        match self {
            DefinitionError::ReservedNamespace { module, .. } => {
                push_str(&mut m, "module `");
                push_str(&mut m, module.as_str());
                push_str(&mut m, "` uses the reserved `std` namespace");
            },
            DefinitionError::ReservedFunction { name, .. } => {
                push_str(&mut m, "`");
                push_str(&mut m, name.as_str());
                push_str(&mut m, "` is a reserved built-in function");
            },
            DefinitionError::AlreadyDefined { kind, qualified, .. } => {
                match kind {
                    DefinitionKind::Function => push_str(&mut m, "function"),
                    DefinitionKind::Type => push_str(&mut m, "type"),
                    DefinitionKind::Trait => push_str(&mut m, "trait"),
                }
                push_str(&mut m, " `");
                push_str(&mut m, qualified.as_str());
                push_str(&mut m, "` is already defined");
            },
        }
        m
    }
}

fn declared_at(unit: &UnitDeclarations, place: DeclarationPlace) -> (r: &Declared)
    requires
        place_in(*unit, place),
    ensures
        *r == kind_items(*unit, place_kind(place))[place_index(*unit, place)],
{
    match place {
        DeclarationPlace::Function(i) => &unit.functions[i],
        DeclarationPlace::Struct(i) => &unit.structs[i],
        DeclarationPlace::Enum(i) => {
            assert(kind_items(*unit, DefinitionKind::Type)[unit.structs@.len() + i] == unit.enums@[i as int]);
            &unit.enums[i]
        },
        DeclarationPlace::Trait(i) => &unit.traits[i],
    }
}

/// The position among all definitions of its kind of the declaration at
/// `place` in unit `u`.
pub open spec fn position(units: Seq<UnitDeclarations>, u: int, place: DeclarationPlace) -> int {
    definitions_upto(units, place_kind(place), u).len() + place_index(units[u], place)
}

fn refusal(units: &Vec<UnitDeclarations>, u: usize, place: DeclarationPlace) -> (r: DefinitionError)
    requires
        u < units@.len(),
        place_in(units@[u as int], place),
    ensures
        ({
            let e = all_definitions(units@, place_kind(place));
            let k = position(units@, u as int, place);
            &&& place_kind(place) == DefinitionKind::Function && is_builtin_function_name(e[k].1)
                ==> r == DefinitionError::ReservedFunction { unit: u, place, name: r->name }
                && r->name@ == e[k].1
            &&& !(place_kind(place) == DefinitionKind::Function && is_builtin_function_name(e[k].1))
                ==> r == DefinitionError::AlreadyDefined {
                kind: place_kind(place),
                unit: u,
                place,
                qualified: r->qualified,
            } && r->qualified@ == e[k].0
        }),
{
    let unit = &units[u];
    let declared = declared_at(unit, place);
    proof {
        lemma_position(units@, place_kind(place), u as int, place_index(*unit, place));
    }
    let kind = match place {
        DeclarationPlace::Function(_) => DefinitionKind::Function,
        DeclarationPlace::Struct(_) | DeclarationPlace::Enum(_) => DefinitionKind::Type,
        DeclarationPlace::Trait(_) => DefinitionKind::Trait,
    };
    if kind == DefinitionKind::Function && is_builtin_function(declared.name.as_str()) {
        DefinitionError::ReservedFunction { unit: u, place, name: copied(declared.name.as_str()) }
    } else {
        DefinitionError::AlreadyDefined {
            kind,
            unit: u,
            place,
            qualified: qualify(unit.module.as_str(), declared.name.as_str()),
        }
    }
}

/// Collects the function, type and trait tables of all units, as the
/// first pass of module resolution does: first every unit's module is
/// checked against the reserved `std` namespace, then the functions, the
/// types and the traits are collected in unit order.
pub fn check_definitions(units: &Vec<UnitDeclarations>) -> (r: Result<DefinitionTables, DefinitionError>)
    ensures
        ({
            let n = units@.len() as int;
            let ef = all_definitions(units@, DefinitionKind::Function);
            let et = all_definitions(units@, DefinitionKind::Type);
            let er = all_definitions(units@, DefinitionKind::Trait);
            let nf = first_refused(ef, DefinitionKind::Function, ef.len() as int);
            let nt = first_refused(et, DefinitionKind::Type, et.len() as int);
            let nr = first_refused(er, DefinitionKind::Trait, er.len() as int);
            &&& r is Ok <==> first_std_unit(units@, n) is None && nf is None && nt is None && nr is None
            &&& r matches Ok(t) ==> definition_views(t.functions@) == ef && definition_views(t.types@) == et
                && definition_views(t.traits@) == er
            &&& r matches Err(DefinitionError::ReservedNamespace { unit, module }) ==> first_std_unit(units@, n)
                == Some(unit as int) && module@ == units@[unit as int].module@
            &&& r matches Err(DefinitionError::ReservedFunction { unit, place, name }) ==> first_std_unit(
                units@,
                n,
            ) is None && unit < n && place_in(units@[unit as int], place) && place_kind(place)
                == DefinitionKind::Function && nf == Some(position(units@, unit as int, place)) && name@
                == ef[position(units@, unit as int, place)].1 && is_builtin_function_name(name@)
            &&& r matches Err(DefinitionError::AlreadyDefined { kind, unit, place, qualified }) ==> {
                let e = all_definitions(units@, kind);
                let k = position(units@, unit as int, place);
                &&& first_std_unit(units@, n) is None
                &&& unit < n && place_in(units@[unit as int], place) && place_kind(place) == kind
                &&& kind != DefinitionKind::Function ==> nf is None
                &&& kind == DefinitionKind::Trait ==> nt is None
                &&& first_refused(e, kind, e.len() as int) == Some(k)
                &&& qualified@ == e[k].0
                &&& !(kind == DefinitionKind::Function && is_builtin_function_name(e[k].1))
            }
        }),
{
    let mut u: usize = 0;
    while u < units.len()
        invariant
            u <= units@.len(),
            first_std_unit(units@, u as int) is None,
        decreases units@.len() - u,
    {
        if !units[u].builtin && is_in_std_namespace(units[u].module.as_str()) {
            proof {
                lemma_first_std_at(units@, u as int, units@.len() as int);
            }
            return Err(DefinitionError::ReservedNamespace { unit: u, module: copied(units[u].module.as_str()) });
        }
        u = u + 1;
    }
    let functions = match collect_definitions(units, DefinitionKind::Function) {
        Ok(t) => t,
        Err((u, place)) => {
            return Err(refusal(units, u, place));
        },
    };
    let types = match collect_definitions(units, DefinitionKind::Type) {
        Ok(t) => t,
        Err((u, place)) => {
            return Err(refusal(units, u, place));
        },
    };
    let traits = match collect_definitions(units, DefinitionKind::Trait) {
        Ok(t) => t,
        Err((u, place)) => {
            return Err(refusal(units, u, place));
        },
    };
    Ok(DefinitionTables { functions, types, traits })
}

// ---------------------------------------------------------------------------
// Imports.
// ---------------------------------------------------------------------------

/// What a `use` binds its name to, as text.
pub enum BindingView {
    Module(Seq<char>),
    Function(Seq<char>),
    Trait(Seq<char>),
    Type(Seq<char>),
}

/// The text of a binding.
pub open spec fn binding_view(b: ImportBinding) -> BindingView {
    match b {
        ImportBinding::Module(p) => BindingView::Module(p@),
        ImportBinding::Function(p) => BindingView::Function(p@),
        ImportBinding::Trait(p) => BindingView::Trait(p@),
        ImportBinding::Type(p) => BindingView::Type(p@),
    }
}

/// Why a `use` cannot be resolved.
#[derive(Debug, Clone, PartialEq, Eq)]
pub enum ImportError {
    /// The import names a definition of another module that is not public.
    Private { import: usize, kind: DefinitionKind, path: String },
    /// The import names nothing that exists.
    Unknown { import: usize, path: String },
    /// Two imports bind the same name.
    DuplicateName { import: usize, name: String },
}

/// An import error as text: which import, and what is wrong.
pub enum ImportFault {
    Private(DefinitionKind, Seq<char>),
    Unknown(Seq<char>),
    DuplicateName(Seq<char>),
}

impl ImportError {
    /// The diagnostic text.
    pub fn message(&self) -> (r: String)
        ensures
            r@ == match *self {
                ImportError::Private { kind, path, .. } => kind_word(kind) + " `"@ + path@ + "` is private"@,
                ImportError::Unknown { path, .. } => "unknown import `"@ + path@ + "`"@,
                ImportError::DuplicateName { name, .. } => "import name `"@ + name@ + "` is already defined"@,
            },
    {
        let mut m = String::new();
        match self {
            ImportError::Private { kind, path, .. } => {
                match kind {
                    DefinitionKind::Function => push_str(&mut m, "function"),
                    DefinitionKind::Type => push_str(&mut m, "type"),
                    DefinitionKind::Trait => push_str(&mut m, "trait"),
                }
                push_str(&mut m, " `");
                push_str(&mut m, path.as_str());
                push_str(&mut m, "` is private");
            },
            ImportError::Unknown { path, .. } => {
                push_str(&mut m, "unknown import `");
                push_str(&mut m, path.as_str());
                push_str(&mut m, "`");
            },
            ImportError::DuplicateName { name, .. } => {
                push_str(&mut m, "import name `");
                push_str(&mut m, name.as_str());
                push_str(&mut m, "` is already defined");
            },
        }
        m
    }

    /// Which import the error is about.
    pub fn import(&self) -> (r: usize)
        ensures
            r == import_of(*self),
    {
        match self {
            ImportError::Private { import, .. } => *import,
            ImportError::Unknown { import, .. } => *import,
            ImportError::DuplicateName { import, .. } => *import,
        }
    }
}

/// Which import an error is about.
pub open spec fn import_of(e: ImportError) -> usize {
    match e {
        ImportError::Private { import, .. } => import,
        ImportError::Unknown { import, .. } => import,
        ImportError::DuplicateName { import, .. } => import,
    }
}

/// The text of an import error.
pub open spec fn import_fault(e: ImportError) -> ImportFault {
    match e {
        ImportError::Private { kind, path, .. } => ImportFault::Private(kind, path@),
        ImportError::Unknown { path, .. } => ImportFault::Unknown(path@),
        ImportError::DuplicateName { name, .. } => ImportFault::DuplicateName(name@),
    }
}

/// The first definition in `table` with qualified name `path`.
pub open spec fn find_definition(table: Seq<(Seq<char>, Seq<char>, Seq<char>, bool)>, path: Seq<char>) -> Option<
    (Seq<char>, Seq<char>, Seq<char>, bool),
>
    decreases table.len(),
{
    if table.len() == 0 {
        None
    } else if table[0].0 == path {
        Some(table[0])
    } else {
        find_definition(table.drop_first(), path)
    }
}

/// The tables as text.
pub open spec fn tables_view(t: DefinitionTables) -> (
    Seq<(Seq<char>, Seq<char>, Seq<char>, bool)>,
    Seq<(Seq<char>, Seq<char>, Seq<char>, bool)>,
    Seq<(Seq<char>, Seq<char>, Seq<char>, bool)>,
) {
    (definition_views(t.functions@), definition_views(t.types@), definition_views(t.traits@))
}

/// A definition named by `path` may be imported into `module`: it is public
/// or defined in `module` itself.
pub open spec fn importable(d: (Seq<char>, Seq<char>, Seq<char>, bool), module: Seq<char>) -> bool {
    d.2 == module || d.3
}

/// The name and binding that one `use` with `segments` gives, in a unit of
/// `module` in the package with `prefix` and dependency `aliases`:
/// `std.mem`, a module or package namespace, or else a function, trait or
/// type (looked up in that order) that must be visible.
pub open spec fn import_target(
    module: Seq<char>,
    prefix: Seq<char>,
    aliases: Seq<(String, String)>,
    modules: Seq<String>,
    tables: DefinitionTables,
    segments: Seq<Seq<char>>,
) -> Result<(Seq<char>, BindingView), ImportFault> {
    let path = import_path(prefix, aliases, dot_joined(segments));
    let (functions, types, traits) = tables_view(tables);
    if path == "std.mem"@ {
        Ok(("mem"@, BindingView::Module("std.mem"@)))
    } else if module_or_namespace(path, modules) {
        Ok((segments.last(), BindingView::Module(path)))
    } else {
        match split_at_last(path, '.') {
            Some((_, name)) => match find_definition(functions, path) {
                Some(d) => if importable(d, module) {
                    Ok((name, BindingView::Function(path)))
                } else {
                    Err(ImportFault::Private(DefinitionKind::Function, path))
                },
                None => match find_definition(traits, path) {
                    Some(d) => if importable(d, module) {
                        Ok((name, BindingView::Trait(path)))
                    } else {
                        Err(ImportFault::Private(DefinitionKind::Trait, path))
                    },
                    None => match find_definition(types, path) {
                        Some(d) => if importable(d, module) {
                            Ok((name, BindingView::Type(path)))
                        } else {
                            Err(ImportFault::Private(DefinitionKind::Type, path))
                        },
                        None => Err(ImportFault::Unknown(path)),
                    },
                },
            },
            None => Err(ImportFault::Unknown(path)),
        }
    }
}

/// The bindings of the first `n` imports, or the first fault and the index
/// of the import it is about.
pub open spec fn imports_outcome(
    module: Seq<char>,
    prefix: Seq<char>,
    aliases: Seq<(String, String)>,
    modules: Seq<String>,
    tables: DefinitionTables,
    uses: Seq<Seq<Seq<char>>>,
    n: int,
) -> Result<Seq<(Seq<char>, BindingView)>, (int, ImportFault)>
    decreases n,
{
    if n <= 0 {
        Ok(seq![])
    } else {
        match imports_outcome(module, prefix, aliases, modules, tables, uses, n - 1) {
            Err(e) => Err(e),
            Ok(bound) => match import_target(module, prefix, aliases, modules, tables, uses[n - 1]) {
                Err(f) => Err((n - 1, f)),
                Ok((name, b)) => if exists|j: int| 0 <= j < bound.len() && (#[trigger] bound[j]).0 == name {
                    Err((n - 1, ImportFault::DuplicateName(name)))
                } else {
                    Ok(bound.push((name, b)))
                },
            },
        }
    }
}

/// The `use` paths as text.
pub open spec fn uses_view(uses: Seq<Vec<String>>) -> Seq<Seq<Seq<char>>> {
    uses.map_values(|u: Vec<String>| texts(u@))
}

/// The bindings as text.
pub open spec fn bindings_view(b: Seq<(String, ImportBinding)>) -> Seq<(Seq<char>, BindingView)> {
    b.map_values(|e: (String, ImportBinding)| (e.0@, binding_view(e.1)))
}

pub(crate) fn find_in<'a>(table: &'a Vec<Definition>, path: &str) -> (r: Option<&'a Definition>)
    ensures
        r matches Some(d) ==> find_definition(definition_views(table@), path@) == Some(d@),
        r is None ==> find_definition(definition_views(table@), path@) is None,
{
    let mut i: usize = 0;
    let ghost v = definition_views(table@);
    assert(v.skip(0) =~= v);
    while i < table.len()
        invariant
            i <= table@.len(),
            v == definition_views(table@),
            find_definition(v, path@) == find_definition(v.skip(i as int), path@),
        decreases table@.len() - i,
    {
        assert(v.skip(i as int)[0] == table@[i as int]@);
        assert(v.skip(i as int).drop_first() =~= v.skip(i + 1));
        if str_eq(table[i].qualified.as_str(), path) {
            return Some(&table[i]);
        }
        i = i + 1;
    }
    None
}

fn resolve_import(
    module: &str,
    prefix: &str,
    aliases: &Vec<(String, String)>,
    modules: &Vec<String>,
    tables: &DefinitionTables,
    segments: &Vec<String>,
    index: usize,
) -> (r: Result<(String, ImportBinding), ImportError>)
    requires
        segments@.len() > 0,
    ensures
        ({
            let target = import_target(module@, prefix@, aliases@, modules@, *tables, texts(segments@));
            &&& r matches Ok(v) ==> target == Ok::<(Seq<char>, BindingView), ImportFault>((v.0@, binding_view(v.1)))
            &&& r matches Err(e) ==> target == Err::<(Seq<char>, BindingView), ImportFault>(import_fault(e))
                && import_of(e) == index && !(e is DuplicateName)
        }),
{
    let raw = join_dots(segments, segments.len());
    assert(texts(segments@).take(segments@.len() as int) =~= texts(segments@));
    let path = resolve_import_path(prefix, aliases, raw.as_str());
    proof {
        reveal_strlit("std.mem");
        reveal_strlit("mem");
    }
    if str_eq(path.as_str(), "std.mem") {
        return Ok((copied("mem"), ImportBinding::Module(copied("std.mem"))));
    }
    if is_module_or_namespace(path.as_str(), modules) {
        let last = copied(segments[segments.len() - 1].as_str());
        return Ok((last, ImportBinding::Module(path)));
    }
    let name = match rsplit_once(path.as_str(), '.') {
        Some((_, name)) => name,
        None => {
            return Err(ImportError::Unknown { import: index, path });
        },
    };
    if let Some(d) = find_in(&tables.functions, path.as_str()) {
        if !d.public && !str_eq(d.module.as_str(), module) {
            return Err(ImportError::Private { import: index, kind: DefinitionKind::Function, path });
        }
        let bound = copied(path.as_str());
        return Ok((name, ImportBinding::Function(bound)));
    }
    if let Some(d) = find_in(&tables.traits, path.as_str()) {
        if !d.public && !str_eq(d.module.as_str(), module) {
            return Err(ImportError::Private { import: index, kind: DefinitionKind::Trait, path });
        }
        let bound = copied(path.as_str());
        return Ok((name, ImportBinding::Trait(bound)));
    }
    if let Some(d) = find_in(&tables.types, path.as_str()) {
        if !d.public && !str_eq(d.module.as_str(), module) {
            return Err(ImportError::Private { import: index, kind: DefinitionKind::Type, path });
        }
        let bound = copied(path.as_str());
        return Ok((name, ImportBinding::Type(bound)));
    }
    Err(ImportError::Unknown { import: index, path })
}

/// Resolves the `use` declarations of a unit of `module`, in the package
/// with module `prefix` and dependency `aliases`, against the known
/// `modules` and definition tables: each import binds its last name (or
/// `mem` for `std.mem`); the first import that names nothing visible, or
/// binds a name already bound, is refused.
pub fn resolve_imports(
    module: &str,
    prefix: &str,
    aliases: &Vec<(String, String)>,
    modules: &Vec<String>,
    tables: &DefinitionTables,
    uses: &Vec<Vec<String>>,
) -> (r: Result<Vec<(String, ImportBinding)>, ImportError>)
    requires
        forall|i: int| 0 <= i < uses@.len() ==> (#[trigger] uses@[i])@.len() > 0,
    ensures
        ({
            let outcome = imports_outcome(
                module@,
                prefix@,
                aliases@,
                modules@,
                *tables,
                uses_view(uses@),
                uses@.len() as int,
            );
            &&& r is Ok <==> outcome is Ok
            &&& r matches Ok(b) ==> outcome == Ok::<Seq<(Seq<char>, BindingView)>, (int, ImportFault)>(
                bindings_view(b@),
            )
            &&& r matches Err(e) ==> outcome == Err::<Seq<(Seq<char>, BindingView)>, (int, ImportFault)>(
                (import_of(e) as int, import_fault(e)),
            )
        }),
{
    let ghost uv = uses_view(uses@);
    let mut bound: Vec<(String, ImportBinding)> = Vec::new();
    assert(bindings_view(bound@) =~= Seq::<(Seq<char>, BindingView)>::empty());
    let mut i: usize = 0;
    while i < uses.len()
        invariant
            i <= uses@.len(),
            uv == uses_view(uses@),
            forall|k: int| 0 <= k < uses@.len() ==> (#[trigger] uses@[k])@.len() > 0,
            imports_outcome(module@, prefix@, aliases@, modules@, *tables, uv, i as int) == Ok::<
                Seq<(Seq<char>, BindingView)>,
                (int, ImportFault),
            >(bindings_view(bound@)),
        decreases uses@.len() - i,
    {
        assert(uv[i as int] == texts(uses@[i as int]@));
        let (name, binding) = match resolve_import(module, prefix, aliases, modules, tables, &uses[i], i) {
            Ok(v) => v,
            Err(e) => {
                proof {
                    lemma_outcome_stays(module@, prefix@, aliases@, modules@, *tables, uv, i as int + 1, uses@.len() as int);
                }
                return Err(e);
            },
        };
        let mut k: usize = 0;
        while k < bound.len()
            invariant
                k <= bound@.len(),
                i < uses@.len(),
                uv == uses_view(uses@),
                imports_outcome(module@, prefix@, aliases@, modules@, *tables, uv, i as int) == Ok::<
                    Seq<(Seq<char>, BindingView)>,
                    (int, ImportFault),
                >(bindings_view(bound@)),
                import_target(module@, prefix@, aliases@, modules@, *tables, uv[i as int]) == Ok::<
                    (Seq<char>, BindingView),
                    ImportFault,
                >((name@, binding_view(binding))),
                forall|j: int| 0 <= j < k ==> (#[trigger] bound@[j]).0@ != name@,
            decreases bound@.len() - k,
        {
            if str_eq(bound[k].0.as_str(), name.as_str()) {
                proof {
                    assert(bindings_view(bound@)[k as int].0 == name@);
                    assert(imports_outcome(module@, prefix@, aliases@, modules@, *tables, uv, i + 1) == Err::<
                        Seq<(Seq<char>, BindingView)>,
                        (int, ImportFault),
                    >((i as int, ImportFault::DuplicateName(name@))));
                    lemma_outcome_stays(module@, prefix@, aliases@, modules@, *tables, uv, i as int + 1, uses@.len() as int);
                }
                return Err(ImportError::DuplicateName { import: i, name });
            }
            k = k + 1;
        }
        proof {
            assert forall|j: int| 0 <= j < bindings_view(bound@).len() implies (#[trigger] bindings_view(bound@)[j]).0 != name@ by {
                assert(bound@[j].0@ != name@);
            }
        }
        let ghost before = bindings_view(bound@);
        let ghost entry = (name@, binding_view(binding));
        proof {
            assert(!(exists|j: int| 0 <= j < before.len() && (#[trigger] before[j]).0 == entry.0));
            assert(imports_outcome(module@, prefix@, aliases@, modules@, *tables, uv, i + 1) == Ok::<
                Seq<(Seq<char>, BindingView)>,
                (int, ImportFault),
            >(before.push(entry)));
        }
        bound.push((name, binding));
        assert(bindings_view(bound@) =~= before.push(entry));
        i = i + 1;
    }
    Ok(bound)
}

proof fn lemma_outcome_stays(
    module: Seq<char>,
    prefix: Seq<char>,
    aliases: Seq<(String, String)>,
    modules: Seq<String>,
    tables: DefinitionTables,
    uses: Seq<Seq<Seq<char>>>,
    n: int,
    m: int,
)
    requires
        0 < n <= m,
        imports_outcome(module, prefix, aliases, modules, tables, uses, n) is Err,
    ensures
        imports_outcome(module, prefix, aliases, modules, tables, uses, m) == imports_outcome(
            module,
            prefix,
            aliases,
            modules,
            tables,
            uses,
            n,
        ),
    decreases m - n,
{
    if m > n {
        lemma_outcome_stays(module, prefix, aliases, modules, tables, uses, n, m - 1);
    }
}

/// The message for an import whose name is also a function of the module.
pub open spec fn conflict_text(name: Seq<char>, module: Seq<char>) -> Seq<char> {
    "import `"@ + name + "` conflicts with a function in module `"@ + (if module.len() == 0 {
        "<root>"@
    } else {
        module
    }) + "`"@
}

/// Some import of `bindings` binds the name of one of `functions`.
pub open spec fn import_conflict(bindings: Seq<(String, ImportBinding)>, functions: Seq<Declared>, name: Seq<char>) -> bool {
    (exists|i: int| 0 <= i < bindings.len() && (#[trigger] bindings[i]).0@ == name) && exists|j: int|
        0 <= j < functions.len() && (#[trigger] functions[j]).name@ == name
}

/// Refuses an import that binds the name of a function the unit of `module`
/// defines. Which of several such imports is reported is left open (the
/// bindings form a map whose walk order is not fixed); this one reports the
/// first in import order.
pub fn check_import_conflicts(
    module: &str,
    bindings: &Vec<(String, ImportBinding)>,
    functions: &Vec<Declared>,
) -> (r: Result<(), String>)
    ensures
        r is Ok <==> !exists|name: Seq<char>| import_conflict(bindings@, functions@, name),
        r matches Err(m) ==> exists|name: Seq<char>|
            import_conflict(bindings@, functions@, name) && m@ == conflict_text(name, module@),
{
    let mut i: usize = 0;
    while i < bindings.len()
        invariant
            i <= bindings@.len(),
            forall|k: int, j: int|
                0 <= k < i && 0 <= j < functions@.len() ==> (#[trigger] bindings@[k]).0@ != (
                #[trigger] functions@[j]).name@,
        decreases bindings@.len() - i,
    {
        let mut j: usize = 0;
        while j < functions.len()
            invariant
                i < bindings@.len(),
                j <= functions@.len(),
                forall|q: int| 0 <= q < j ==> bindings@[i as int].0@ != (#[trigger] functions@[q]).name@,
            decreases functions@.len() - j,
        {
            if str_eq(bindings[i].0.as_str(), functions[j].name.as_str()) {
                let mut m = String::new();
                push_str(&mut m, "import `");
                push_str(&mut m, bindings[i].0.as_str());
                push_str(&mut m, "` conflicts with a function in module `");
                push_str(&mut m, display_module(module));
                push_str(&mut m, "`");
                proof {
                    let name = bindings@[i as int].0@;
                    assert(import_conflict(bindings@, functions@, name));
                    assert(m@ =~= conflict_text(name, module@));
                }
                return Err(m);
            }
            j = j + 1;
        }
        i = i + 1;
    }
    proof {
        assert forall|name: Seq<char>| !import_conflict(bindings@, functions@, name) by {
            if import_conflict(bindings@, functions@, name) {
                let k = choose|k: int| 0 <= k < bindings@.len() && (#[trigger] bindings@[k]).0@ == name;
                let j = choose|j: int| 0 <= j < functions@.len() && (#[trigger] functions@[j]).name@ == name;
                assert(bindings@[k].0@ != functions@[j].name@);
            }
        }
    }
    Ok(())
}

// ---------------------------------------------------------------------------
// Type names.
// ---------------------------------------------------------------------------

/// Some definition in `table` has the qualified name `name`.
pub open spec fn defined(table: Seq<(Seq<char>, Seq<char>, Seq<char>, bool)>, name: Seq<char>) -> bool {
    find_definition(table, name) is Some
}

/// The type or trait a name written in `module` stands for, looked up in
/// `table`: a type or trait imported under that name, then the module's own
/// definition, then the name seen through the imports, then the name as it
/// stands, then the prelude; a name found nowhere is left as the imports
/// make it.
pub open spec fn type_name_target(
    module: Seq<char>,
    imports: Seq<(String, ImportBinding)>,
    table: Seq<(Seq<char>, Seq<char>, Seq<char>, bool)>,
    name: Seq<char>,
) -> Seq<char> {
    let direct = match binding(imports, name) {
        Some(ImportBinding::Trait(p)) => if defined(table, p@) {
            Some(p@)
        } else {
            None
        },
        Some(ImportBinding::Type(p)) => if defined(table, p@) {
            Some(p@)
        } else {
            None
        },
        _ => None,
    };
    if direct is Some {
        direct->0
    } else if defined(table, qualified(module, name)) {
        qualified(module, name)
    } else if defined(table, imported_name(imports, name)) {
        imported_name(imports, name)
    } else if defined(table, name) {
        name
    } else if prelude_path(name) is Some && defined(table, prelude_path(name)->0) {
        prelude_path(name)->0
    } else {
        imported_name(imports, name)
    }
}

fn is_defined(table: &Vec<Definition>, name: &str) -> (r: bool)
    ensures
        r == defined(definition_views(table@), name@),
{
    find_in(table, name).is_some()
}

/// Resolves a type or trait name written in `module` (an `impl` target or
/// trait).
pub fn resolve_type_name(
    module: &str,
    imports: &Vec<(String, ImportBinding)>,
    table: &Vec<Definition>,
    name: &str,
) -> (r: String)
    ensures
        r@ == type_name_target(module@, imports@, definition_views(table@), name@),
{
    match lookup(imports, name) {
        Some(ImportBinding::Trait(path)) | Some(ImportBinding::Type(path)) => {
            if is_defined(table, path.as_str()) {
                return path.clone();
            }
        },
        _ => {},
    }
    let own = qualify(module, name);
    if is_defined(table, own.as_str()) {
        return own;
    }
    let resolved = resolve_imported(imports, name);
    if is_defined(table, resolved.as_str()) {
        return resolved;
    }
    if is_defined(table, name) {
        return copied(name);
    }
    if let Some(prelude) = resolve_prelude_path(name) {
        if is_defined(table, prelude.as_str()) {
            return prelude;
        }
    }
    resolved
}

/// The user type a type name written in `module` stands for: the module's
/// own definition, then the name seen through the imports, then the name as
/// it stands, then the prelude; `None` for a name that is none of these (a
/// primitive, a type parameter or an unknown name, left as written).
pub open spec fn named_type_target(
    module: Seq<char>,
    imports: Seq<(String, ImportBinding)>,
    table: Seq<(Seq<char>, Seq<char>, Seq<char>, bool)>,
    name: Seq<char>,
) -> Option<Seq<char>> {
    if defined(table, qualified(module, name)) {
        Some(qualified(module, name))
    } else if defined(table, imported_name(imports, name)) {
        Some(imported_name(imports, name))
    } else if defined(table, name) {
        Some(name)
    } else if prelude_path(name) is Some && defined(table, prelude_path(name)->0) {
        prelude_path(name)
    } else {
        None
    }
}

/// Resolves a type name in a type written in `module`: `Ok(Some(t))` for
/// the user type `t` it names, `Ok(None)` for a name left as written, and
/// `Err(t)` when `t` belongs to another module and is not public (the
/// diagnostic is "type `t` is private").
pub fn resolve_named_type(
    module: &str,
    imports: &Vec<(String, ImportBinding)>,
    types: &Vec<Definition>,
    name: &str,
) -> (r: Result<Option<String>, String>)
    ensures
        ({
            let target = named_type_target(module@, imports@, definition_views(types@), name@);
            &&& target is None ==> r == Ok::<Option<String>, String>(None)
            &&& target matches Some(t) ==> {
                let d = find_definition(definition_views(types@), t)->0;
                &&& importable(d, module@) ==> (r matches Ok(Some(s)) && s@ == t)
                &&& !importable(d, module@) ==> (r matches Err(s) && s@ == t)
            }
        }),
{
    let own = qualify(module, name);
    let resolved = if is_defined(types, own.as_str()) {
        own
    } else {
        let imported = resolve_imported(imports, name);
        if is_defined(types, imported.as_str()) {
            imported
        } else if is_defined(types, name) {
            copied(name)
        } else {
            match resolve_prelude_path(name) {
                Some(prelude) => {
                    if is_defined(types, prelude.as_str()) {
                        prelude
                    } else {
                        return Ok(None);
                    }
                },
                None => {
                    return Ok(None);
                },
            }
        }
    };
    let d = match find_in(types, resolved.as_str()) {
        Some(d) => d,
        None => {
            return Ok(None);
        },
    };
    if !d.public && !str_eq(d.module.as_str(), module) {
        return Err(resolved);
    }
    Ok(Some(resolved))
}


proof fn lemma_first_refused_stays(e: Seq<(Seq<char>, Seq<char>, Seq<char>, bool)>, kind: DefinitionKind, k: int, n: int)
    requires
        0 <= k <= n,
        first_refused(e, kind, k) is Some,
    ensures
        first_refused(e, kind, n) is Some,
    decreases n - k,
{
    if n > k {
        lemma_first_refused_stays(e, kind, k, n - 1);
    }
}

/// No unit may define a function named `print`, `println` or `length`:
/// whenever one does, the function table is refused (so `check_definitions`
/// fails), whatever else the units hold.
pub proof fn builtin_function_names_are_reserved(units: Seq<UnitDeclarations>, u: int, j: int)
    requires
        0 <= u < units.len(),
        0 <= j < units[u].functions@.len(),
        units[u].functions@[j].name@ == "print"@ || units[u].functions@[j].name@ == "println"@
            || units[u].functions@[j].name@ == "length"@,
    ensures
        first_refused(
            all_definitions(units, DefinitionKind::Function),
            DefinitionKind::Function,
            all_definitions(units, DefinitionKind::Function).len() as int,
        ) is Some,
{
    let e = all_definitions(units, DefinitionKind::Function);
    lemma_position(units, DefinitionKind::Function, u, j);
    let k = definitions_upto(units, DefinitionKind::Function, u).len() + j;
    assert(e[k].1 == units[u].functions@[j].name@);
    assert(refused(e, DefinitionKind::Function, k));
    if first_refused(e, DefinitionKind::Function, k) is Some {
        lemma_first_refused_stays(e, DefinitionKind::Function, k, e.len() as int);
    } else {
        lemma_first_refused_at(e, DefinitionKind::Function, k, e.len() as int);
    }
}


/// A qualified name is defined once per namespace: whenever two
/// definitions of one kind have the same qualified name, the table of that
/// kind is refused.
pub proof fn repeated_definitions_are_refused(units: Seq<UnitDeclarations>, kind: DefinitionKind, i: int, k: int)
    requires
        0 <= i < k < all_definitions(units, kind).len(),
        all_definitions(units, kind)[i].0 == all_definitions(units, kind)[k].0,
    ensures
        first_refused(all_definitions(units, kind), kind, all_definitions(units, kind).len() as int) is Some,
{
    let e = all_definitions(units, kind);
    assert(refused(e, kind, k));
    if first_refused(e, kind, k) is Some {
        lemma_first_refused_stays(e, kind, k, e.len() as int);
    } else {
        lemma_first_refused_at(e, kind, k, e.len() as int);
    }
}

proof fn lemma_first_std_stays(units: Seq<UnitDeclarations>, k: int, n: int)
    requires
        0 <= k <= n <= units.len(),
        first_std_unit(units, k) is Some,
    ensures
        first_std_unit(units, n) is Some,
    decreases n - k,
{
    if n > k {
        lemma_first_std_stays(units, k, n - 1);
    }
}

/// The `std` namespace belongs to the standard library: a unit that is not
/// built in and whose module is `std` or lies under `std.` is refused; a
/// module that merely starts with the letters `std` (such as `stdx`) is
/// not in the namespace.
pub proof fn std_namespace_is_reserved(units: Seq<UnitDeclarations>, u: int, rest: Seq<char>)
    requires
        0 <= u < units.len(),
        !units[u].builtin,
        units[u].module@ == "std"@ || units[u].module@ == "std."@ + rest,
    ensures
        first_std_unit(units, units.len() as int) is Some,
        !in_std_namespace("stdx"@),
        !in_std_namespace("mystd"@),
{
    reveal_strlit("std");
    reveal_strlit("std.");
    reveal_strlit("stdx");
    reveal_strlit("mystd");
    assert(in_std_namespace(units[u].module@));
    if first_std_unit(units, u) is Some {
        lemma_first_std_stays(units, u, units.len() as int);
    } else {
        lemma_first_std_at(units, u, units.len() as int);
    }
}

} // verus!
