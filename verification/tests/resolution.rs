use dolphin::definitions::Definition;
use dolphin::ir::BinaryOperator;
use dolphin::modules::ImportBinding;
use dolphin::resolution::{
    decl_names, resolve_block, resolve_bounds, resolve_enum, resolve_function, resolve_signature,
    resolve_impl, resolve_struct, resolve_trait, AssociatedBinding, EnumDecl, FieldDecl, FunctionDecl,
    ImplDecl, StructDecl, TraitDecl, TraitMethodDecl, VariantDecl, resolve_call, resolve_expr, resolve_statement,
    resolve_type_list, resolve_type_ref, ForIterable, MatchArm, MatchPattern,
    ResolveFault, Scope, SyntaxExpr, SyntaxStatement,
};
use dolphin::templates::{Signature, SignatureParam, TypeParamDecl, TypeRef};

fn s(text: &str) -> String {
    text.to_string()
}

fn decl(qualified: &str, module: &str, public: bool) -> Definition {
    let name = qualified.rsplit('.').next().unwrap_or(qualified);
    Definition { qualified: s(qualified), name: s(name), module: s(module), public }
}

fn scope() -> Scope {
    Scope::new(
        s("app"),
        vec![s("helper")],
        vec![
            (s("mem"), ImportBinding::Module(s("std.mem"))),
            (s("lib"), ImportBinding::Module(s("lib"))),
            (s("Hidden"), ImportBinding::Type(s("lib.Hidden"))),
            (s("Shown"), ImportBinding::Type(s("lib.Shown"))),
        ],
        vec![
            decl("app.helper", "app", false),
            decl("lib.open", "lib", true),
            decl("lib.secret", "lib", false),
        ],
        vec![
            decl("app.Point", "app", false),
            decl("app.Shape", "app", false),
            decl("lib.Hidden", "lib", false),
            decl("lib.Shown", "lib", true),
            decl("app.Vec", "app", true),
        ],
    )
}

fn named(name: &str) -> TypeRef {
    TypeRef::Name { name: s(name), arguments: vec![] }
}

fn call(callee: &str, arguments: Vec<SyntaxExpr>) -> SyntaxExpr {
    SyntaxExpr::Call { callee: s(callee), type_arguments: vec![], arguments }
}

fn callee_of(e: &SyntaxExpr) -> String {
    match e {
        SyntaxExpr::Call { callee, .. } => callee.clone(),
        _ => panic!("not a call"),
    }
}

fn type_name_of(t: &TypeRef) -> String {
    match t {
        TypeRef::Name { name, .. } => name.clone(),
        _ => panic!("not a named type"),
    }
}

#[test]
fn scope_lists_the_type_names() {
    let sc = scope();
    assert_eq!(decl_names(&sc.types)[4], "app.Vec");
    assert_eq!(decl_names(&sc.functions), vec![s("app.helper"), s("lib.open"), s("lib.secret")]);
    assert_eq!(sc.type_names.len(), 5);
}

#[test]
fn output_builtins_refuse_type_arguments() {
    let sc = scope();
    assert_eq!(resolve_call(&sc, "println", false), Ok(s("println")));
    let err = resolve_call(&sc, "print", true).unwrap_err();
    assert_eq!(err, ResolveFault::ExplicitTypeArguments { callee: s("print") });
    assert_eq!(err.message(), "`print` does not accept explicit type arguments");
}

#[test]
fn std_mem_calls_take_their_canonical_name() {
    let sc = scope();
    assert_eq!(resolve_call(&sc, "mem.alloc", true), Ok(s("std.mem.alloc")));
    assert_eq!(resolve_call(&sc, "std.mem.view_const", false), Ok(s("std.mem.view_const")));
    let err = resolve_call(&sc, "mem.grow", false).unwrap_err();
    assert_eq!(err, ResolveFault::UnknownFunction { callee: s("mem.grow") });
    assert_eq!(err.message(), "unknown function `mem.grow`");
}

#[test]
fn associated_functions_qualify_their_type() {
    let sc = scope();
    assert_eq!(resolve_call(&sc, "Vec::init", false), Ok(s("app.Vec::init")));
    assert_eq!(resolve_call(&sc, "a::b::make", false), Ok(s("a::b::make")));
}

#[test]
fn constructors_qualify_their_type() {
    let sc = scope();
    assert_eq!(resolve_call(&sc, "Point", false), Ok(s("app.Point")));
    assert_eq!(resolve_call(&sc, "Shape.Circle", false), Ok(s("app.Shape.Circle")));
    assert_eq!(resolve_call(&sc, "Shown", false), Ok(s("lib.Shown")));
}

#[test]
fn method_calls_and_views_stay_as_written() {
    let sc = scope();
    assert_eq!(resolve_call(&sc, "items.push", false), Ok(s("items.push")));
    assert_eq!(resolve_call(&sc, "buf.slice", false), Ok(s("buf.slice")));
    assert_eq!(resolve_call(&sc, "string.from_bytes", true), Ok(s("string.from_bytes")));
    let mut functions = sc.functions.clone();
    functions.push(decl("string.from_bytes", "std", true));
    let known = Scope::new(s("app"), vec![], vec![], functions, vec![]);
    assert_eq!(resolve_call(&known, "string.from_bytes", false), Ok(s("string.from_bytes")));
    let err = resolve_call(&known, "string.from_bytes", true).unwrap_err();
    assert_eq!(err, ResolveFault::FromBytesTypeArguments);
    assert_eq!(err.message(), "`string.from_bytes` does not accept type arguments");
}

#[test]
fn functions_resolve_through_locals_and_imports() {
    let sc = scope();
    assert_eq!(resolve_call(&sc, "helper", false), Ok(s("app.helper")));
    assert_eq!(resolve_call(&sc, "lib.open", false), Ok(s("lib.open")));
    let err = resolve_call(&sc, "lib.secret", false).unwrap_err();
    assert_eq!(err, ResolveFault::PrivateFunction { name: s("lib.secret") });
    assert_eq!(err.message(), "function `lib.secret` is private");
    assert_eq!(
        resolve_call(&sc, "missing", false),
        Err(ResolveFault::UnknownFunction { callee: s("missing") })
    );
}

#[test]
fn type_references_are_qualified_and_checked() {
    let sc = scope();
    let t = TypeRef::Ptr {
        pointee: Box::new(TypeRef::Name { name: s("Point"), arguments: vec![named("i32"), named("Shown")] }),
        mutable: true,
    };
    match resolve_type_ref(&sc, &t).unwrap() {
        TypeRef::Ptr { pointee, mutable } => {
            assert!(mutable);
            match *pointee {
                TypeRef::Name { name, arguments } => {
                    assert_eq!(name, "app.Point");
                    assert_eq!(type_name_of(&arguments[0]), "i32");
                    assert_eq!(type_name_of(&arguments[1]), "lib.Shown");
                }
                _ => panic!("not a named type"),
            }
        }
        _ => panic!("not a pointer"),
    }
    let hidden = TypeRef::Slice { element: Box::new(named("Hidden")), mutable: false };
    let err = resolve_type_ref(&sc, &hidden).unwrap_err();
    assert_eq!(err, ResolveFault::PrivateType { name: s("lib.Hidden") });
    assert_eq!(err.message(), "type `lib.Hidden` is private");
    let list = resolve_type_list(&sc, &vec![named("Option"), named("Point")]).unwrap();
    assert_eq!(type_name_of(&list[1]), "app.Point");
}

#[test]
fn arguments_fault_before_the_callee() {
    let sc = scope();
    let e = call("outer_missing", vec![call("inner_missing", vec![])]);
    assert_eq!(
        resolve_expr(&sc, &e).unwrap_err(),
        ResolveFault::UnknownFunction { callee: s("inner_missing") }
    );
    let typed = SyntaxExpr::Call {
        callee: s("outer_missing"),
        type_arguments: vec![named("Hidden")],
        arguments: vec![],
    };
    assert_eq!(
        resolve_expr(&sc, &typed).unwrap_err(),
        ResolveFault::PrivateType { name: s("lib.Hidden") }
    );
}

#[test]
fn expressions_resolve_throughout() {
    let sc = scope();
    let e = SyntaxExpr::Binary {
        operator: BinaryOperator::Add,
        left: Box::new(call("helper", vec![SyntaxExpr::Integer(1)])),
        right: Box::new(SyntaxExpr::Cast {
            value: Box::new(SyntaxExpr::Name(s("x"))),
            ty: named("Point"),
        }),
    };
    match resolve_expr(&sc, &e).unwrap() {
        SyntaxExpr::Binary { operator, left, right } => {
            assert_eq!(operator, BinaryOperator::Add);
            assert_eq!(callee_of(&left), "app.helper");
            match *right {
                SyntaxExpr::Cast { value, ty } => {
                    assert!(matches!(*value, SyntaxExpr::Name(ref n) if n == "x"));
                    assert_eq!(type_name_of(&ty), "app.Point");
                }
                _ => panic!("not a cast"),
            }
        }
        _ => panic!("not a binary expression"),
    }
}

#[test]
fn match_patterns_name_their_enum() {
    let sc = scope();
    let e = SyntaxExpr::Match {
        value: Box::new(SyntaxExpr::Name(s("shape"))),
        arms: vec![
            MatchArm {
                pattern: MatchPattern::Enum {
                    name: s("Shape.Circle"),
                    type_arguments: vec![],
                    bindings: vec![s("r")],
                },
                body: call("helper", vec![]),
            },
            MatchArm { pattern: MatchPattern::Wildcard, body: SyntaxExpr::Integer(0) },
        ],
    };
    match resolve_expr(&sc, &e).unwrap() {
        SyntaxExpr::Match { arms, .. } => {
            match &arms[0].pattern {
                MatchPattern::Enum { name, bindings, .. } => {
                    assert_eq!(name, "app.Shape.Circle");
                    assert_eq!(bindings, &vec![s("r")]);
                }
                _ => panic!("not an enum pattern"),
            }
            assert_eq!(callee_of(&arms[0].body), "app.helper");
            assert!(matches!(arms[1].pattern, MatchPattern::Wildcard));
        }
        _ => panic!("not a match"),
    }
}

#[test]
fn blocks_resolve_statement_by_statement() {
    let sc = scope();
    let body = vec![
        SyntaxStatement::Variable {
            mutable: false,
            name: s("p"),
            annotation: Some(named("Point")),
            initializer: call("Point", vec![]),
        },
        SyntaxStatement::While {
            condition: SyntaxExpr::Boolean(true),
            body: vec![SyntaxStatement::Expression(call("lib.open", vec![])), SyntaxStatement::Break],
        },
        SyntaxStatement::For {
            name: s("i"),
            iterable: ForIterable::Range {
                start: SyntaxExpr::Integer(0),
                end: SyntaxExpr::Integer(3),
                inclusive: false,
            },
            body: vec![],
        },
    ];
    let out = resolve_block(&sc, &body).unwrap();
    assert_eq!(out.len(), 3);
    match &out[0] {
        SyntaxStatement::Variable { annotation, initializer, .. } => {
            assert_eq!(type_name_of(annotation.as_ref().unwrap()), "app.Point");
            assert_eq!(callee_of(initializer), "app.Point");
        }
        _ => panic!("not a variable"),
    }
    match &out[1] {
        SyntaxStatement::While { body, .. } => match &body[0] {
            SyntaxStatement::Expression(e) => assert_eq!(callee_of(e), "lib.open"),
            _ => panic!("not an expression statement"),
        },
        _ => panic!("not a loop"),
    }
}

#[test]
fn nested_blocks_report_the_first_fault() {
    let sc = scope();
    let st = SyntaxStatement::If {
        condition: SyntaxExpr::Boolean(true),
        then_block: vec![SyntaxStatement::Defer(call("lib.secret", vec![]))],
        else_block: Some(vec![SyntaxStatement::Return(Some(call("missing", vec![])))]),
    };
    let err = resolve_statement(&sc, &st).unwrap_err();
    assert_eq!(err, ResolveFault::PrivateFunction { name: s("lib.secret") });
    let later = SyntaxStatement::If {
        condition: SyntaxExpr::Boolean(true),
        then_block: vec![SyntaxStatement::Continue],
        else_block: Some(vec![SyntaxStatement::Return(Some(call("missing", vec![])))]),
    };
    assert_eq!(
        resolve_statement(&sc, &later).unwrap_err(),
        ResolveFault::UnknownFunction { callee: s("missing") }
    );
}

#[test]
fn bounds_name_known_traits() {
    let sc = scope();
    let traits = vec![decl("app.Show", "app", true)];
    let ok = vec![
        TypeParamDecl { name: s("T"), bound: Some(s("Show")) },
        TypeParamDecl { name: s("U"), bound: None },
    ];
    let out = resolve_bounds(&sc, &traits, &ok).unwrap();
    assert_eq!(out[0].name, "T");
    assert_eq!(out[0].bound, Some(s("app.Show")));
    assert_eq!(out[1].bound, None);
    let bad = vec![
        TypeParamDecl { name: s("T"), bound: Some(s("Show")) },
        TypeParamDecl { name: s("U"), bound: Some(s("Missing")) },
    ];
    let err = resolve_bounds(&sc, &traits, &bad).unwrap_err();
    assert_eq!(err, ResolveFault::UnknownTrait { bound: s("Missing") });
    assert_eq!(err.message(), "unknown trait `Missing` in type parameter bound");
}

#[test]
fn signatures_resolve_parameters_then_return_type() {
    let sc = scope();
    let sig = Signature {
        parameters: vec![
            SignatureParam { receiver: true, ty: named("Self") },
            SignatureParam { receiver: false, ty: named("Point") },
        ],
        return_type: Some(named("Shown")),
    };
    let out = resolve_signature(&sc, &sig).unwrap();
    assert!(out.parameters[0].receiver);
    assert_eq!(type_name_of(&out.parameters[0].ty), "Self");
    assert_eq!(type_name_of(&out.parameters[1].ty), "app.Point");
    assert_eq!(type_name_of(out.return_type.as_ref().unwrap()), "lib.Shown");
    let hidden = Signature { parameters: vec![], return_type: Some(named("Hidden")) };
    assert_eq!(
        resolve_signature(&sc, &hidden).unwrap_err(),
        ResolveFault::PrivateType { name: s("lib.Hidden") }
    );
}

#[test]
fn functions_resolve_bounds_signature_and_body_and_take_their_module() {
    let sc = scope();
    let traits = vec![decl("app.Show", "app", true)];
    let f = FunctionDecl {
        name: s("draw"),
        public: true,
        type_params: vec![TypeParamDecl { name: s("T"), bound: Some(s("Show")) }],
        signature: Signature {
            parameters: vec![SignatureParam { receiver: false, ty: named("Point") }],
            return_type: None,
        },
        body: vec![SyntaxStatement::Expression(call("helper", vec![]))],
    };
    let out = resolve_function(&sc, &traits, &f).unwrap();
    assert_eq!(out.name, "app.draw");
    assert!(out.public);
    assert_eq!(out.type_params[0].bound, Some(s("app.Show")));
    assert_eq!(type_name_of(&out.signature.parameters[0].ty), "app.Point");
    match &out.body[0] {
        SyntaxStatement::Expression(e) => assert_eq!(callee_of(e), "app.helper"),
        _ => panic!("not an expression statement"),
    }
    let broken = FunctionDecl {
        name: s("draw"),
        public: false,
        type_params: vec![TypeParamDecl { name: s("T"), bound: Some(s("Missing")) }],
        signature: Signature { parameters: vec![], return_type: Some(named("Hidden")) },
        body: vec![],
    };
    assert_eq!(
        resolve_function(&sc, &traits, &broken).unwrap_err(),
        ResolveFault::UnknownTrait { bound: s("Missing") }
    );
}

#[test]
fn struct_and_enum_declarations_take_their_module() {
    let sc = scope();
    let traits = vec![decl("app.Show", "app", true)];
    let st = StructDecl {
        name: s("Pair"),
        public: true,
        type_params: vec![TypeParamDecl { name: s("T"), bound: None }],
        fields: vec![
            FieldDecl { name: s("first"), ty: named("T") },
            FieldDecl { name: s("second"), ty: named("Shown") },
        ],
    };
    let out = resolve_struct(&sc, &traits, &st).unwrap();
    assert_eq!(out.name, "app.Pair");
    assert_eq!(out.fields[0].name, "first");
    assert_eq!(type_name_of(&out.fields[0].ty), "T");
    assert_eq!(type_name_of(&out.fields[1].ty), "lib.Shown");
    let en = EnumDecl {
        name: s("Reply"),
        public: false,
        type_params: vec![],
        variants: vec![
            VariantDecl { name: s("Empty"), fields: vec![] },
            VariantDecl { name: s("Point"), fields: vec![named("Point")] },
        ],
    };
    let out = resolve_enum(&sc, &traits, &en).unwrap();
    assert_eq!(out.name, "app.Reply");
    assert_eq!(out.variants[1].name, "Point");
    assert_eq!(type_name_of(&out.variants[1].fields[0]), "app.Point");
    let hidden = EnumDecl {
        name: s("Bad"),
        public: false,
        type_params: vec![],
        variants: vec![VariantDecl { name: s("V"), fields: vec![named("Hidden")] }],
    };
    assert_eq!(
        resolve_enum(&sc, &traits, &hidden).unwrap_err(),
        ResolveFault::PrivateType { name: s("lib.Hidden") }
    );
}

#[test]
fn traits_qualify_their_name_and_resolve_their_methods() {
    let sc = scope();
    let traits = vec![decl("app.Show", "app", true)];
    let d = TraitDecl {
        name: s("Show"),
        public: true,
        type_params: vec![],
        methods: vec![TraitMethodDecl {
            name: s("show"),
            type_params: vec![TypeParamDecl { name: s("T"), bound: Some(s("Show")) }],
            signature: Signature {
                parameters: vec![SignatureParam { receiver: true, ty: named("Self") }],
                return_type: Some(named("Shown")),
            },
        }],
    };
    let out = resolve_trait(&sc, &traits, &d).unwrap();
    assert_eq!(out.name, "app.Show");
    assert_eq!(out.methods[0].name, "show");
    assert_eq!(out.methods[0].type_params[0].bound, Some(s("app.Show")));
    assert_eq!(type_name_of(out.methods[0].signature.return_type.as_ref().unwrap()), "lib.Shown");
}

#[test]
fn impls_qualify_target_and_trait_and_keep_method_names() {
    let base = scope();
    let sc = Scope::new(
        s("app"),
        vec![s("helper"), s("self")],
        base.imports.clone(),
        base.functions.clone(),
        base.types.clone(),
    );
    let traits = vec![decl("app.Show", "app", true)];
    let d = ImplDecl {
        module: s(""),
        target: s("Point"),
        trait_name: Some(s("Show")),
        trait_arguments: vec![],
        type_arguments: vec![named("Shown")],
        associated_types: vec![AssociatedBinding { name: s("Item"), ty: named("Point") }],
        methods: vec![FunctionDecl {
            name: s("area"),
            public: true,
            type_params: vec![],
            signature: Signature {
                parameters: vec![SignatureParam { receiver: true, ty: named("Self") }],
                return_type: None,
            },
            body: vec![SyntaxStatement::Expression(call("helper", vec![]))],
        }],
    };
    let out = resolve_impl(&sc, &traits, &d).unwrap();
    assert_eq!(out.module, "app");
    assert_eq!(out.target, "app.Point");
    assert_eq!(out.trait_name, Some(s("app.Show")));
    assert_eq!(type_name_of(&out.type_arguments[0]), "lib.Shown");
    assert_eq!(out.associated_types[0].name, "Item");
    assert_eq!(type_name_of(&out.associated_types[0].ty), "app.Point");
    assert_eq!(out.methods[0].name, "area");
    match &out.methods[0].body[0] {
        SyntaxStatement::Expression(e) => assert_eq!(callee_of(e), "app.helper"),
        _ => panic!("not an expression statement"),
    }
    let bad = ImplDecl {
        module: s(""),
        target: s("Point"),
        trait_name: None,
        trait_arguments: vec![named("Hidden")],
        type_arguments: vec![],
        associated_types: vec![],
        methods: vec![],
    };
    assert_eq!(
        resolve_impl(&sc, &traits, &bad).unwrap_err(),
        ResolveFault::PrivateType { name: s("lib.Hidden") }
    );
}
