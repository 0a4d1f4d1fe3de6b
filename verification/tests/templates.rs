use dolphin::templates::{
    canonical_type_ref, check_trait_impl, first_repeated_binding, repeated_param_message, trait_signature_matches,
    type_param_names, validate_impl_header, ImplHeader, ImplHeaderFault, Signature, SignatureParam, TraitImplFault,
    TypeParamDecl, TypeRef,
};

fn param(name: &str) -> TypeParamDecl {
    TypeParamDecl { name: name.to_string(), bound: None }
}

fn named(name: &str) -> TypeRef {
    TypeRef::Name { name: name.to_string(), arguments: vec![] }
}

fn header(target: &str, params: Vec<TypeParamDecl>, arguments: Vec<TypeRef>) -> ImplHeader {
    ImplHeader { target: target.to_string(), type_params: params, type_arguments: arguments, trait_arguments: 0, methods: vec![] }
}

fn types() -> (Vec<(String, usize)>, Vec<(String, usize)>) {
    (vec![("app.Pair".to_string(), 2), ("app.Point".to_string(), 0)], vec![("app.Option".to_string(), 1)])
}

#[test]
fn type_parameters_are_named_once() {
    assert_eq!(type_param_names(&vec![param("T"), param("U")]), Ok(vec!["T".to_string(), "U".to_string()]));
    assert_eq!(type_param_names(&vec![param("T"), param("U"), param("T")]), Err(2));
    assert_eq!(repeated_param_message("T"), "type parameter `T` is already declared");
}

#[test]
fn impl_headers_must_name_a_type_with_its_parameters_in_order() {
    let (structs, enums) = types();
    assert_eq!(validate_impl_header(&header("app.Pair", vec![param("A"), param("B")], vec![named("A"), named("B")]), &structs, &enums), None);
    assert_eq!(validate_impl_header(&header("app.Point", vec![], vec![]), &structs, &enums), None);
    assert_eq!(validate_impl_header(&header("app.Option", vec![param("T")], vec![named("T")]), &structs, &enums), None);
    let fault = validate_impl_header(&header("app.Nope", vec![], vec![]), &structs, &enums).unwrap();
    assert_eq!(fault.message(), "unknown type `app.Nope`");
    let fault = validate_impl_header(&header("app.Pair", vec![param("A")], vec![named("A")]), &structs, &enums).unwrap();
    assert_eq!(fault.message(), "impl for `app.Pair` declares 1 type parameters but `app.Pair` expects 2");
    let fault = validate_impl_header(&header("app.Pair", vec![param("A"), param("B")], vec![named("A")]), &structs, &enums).unwrap();
    assert_eq!(fault.message(), "`app.Pair` expects 2 type arguments but 1 were provided");
    let fault = validate_impl_header(&header("app.Pair", vec![param("A"), param("B")], vec![named("B"), named("A")]), &structs, &enums).unwrap();
    assert_eq!(fault, ImplHeaderFault::ArgumentOrder { index: 0 });
    assert_eq!(
        validate_impl_header(&header("app.Option", vec![], vec![named("i32")]), &structs, &enums),
        Some(ImplHeaderFault::ConcreteTarget)
    );
    assert_eq!(validate_impl_header(&header("T", vec![param("T")], vec![named("T")]), &structs, &enums), Some(ImplHeaderFault::Blanket));
}

#[test]
fn impl_header_faults_come_in_a_fixed_order() {
    let (structs, enums) = types();
    let mut h = header("app.Nope", vec![TypeParamDecl { name: "T".to_string(), bound: Some("Show".to_string()) }], vec![]);
    h.methods = vec![("get".to_string(), 1)];
    h.trait_arguments = 1;
    assert_eq!(validate_impl_header(&h, &structs, &enums), Some(ImplHeaderFault::BoundedParameter { index: 0 }));
    h.type_params = vec![param("T")];
    let fault = validate_impl_header(&h, &structs, &enums).unwrap();
    assert_eq!(fault.message(), "method `get` cannot declare its own type parameters yet");
    h.methods = vec![("get".to_string(), 0)];
    assert_eq!(validate_impl_header(&h, &structs, &enums), Some(ImplHeaderFault::TraitArguments));
}

fn generic(name: &str, arguments: Vec<TypeRef>) -> TypeRef {
    TypeRef::Name { name: name.to_string(), arguments }
}

fn ptr(t: TypeRef, mutable: bool) -> TypeRef {
    TypeRef::Ptr { pointee: Box::new(t), mutable }
}

#[test]
fn canonical_types_read_self_through_the_impl() {
    let bindings = vec![("Item".to_string(), named("i32"))];
    let t = generic("Option", vec![named("Self::Item")]);
    assert_eq!(canonical_type_ref(&t, "app.Counter", &bindings), "Option<i32>");
    assert_eq!(canonical_type_ref(&ptr(named("Self"), false), "app.Counter", &bindings), "*const app.Counter");
    assert_eq!(canonical_type_ref(&ptr(named("Self"), true), "app.Counter", &bindings), "*app.Counter");
    assert_eq!(canonical_type_ref(&named("Self::Other"), "T", &bindings), "?Self::Other");
    let slice = TypeRef::Slice { element: Box::new(named("u8")), mutable: false };
    assert_eq!(canonical_type_ref(&slice, "T", &bindings), "[]const u8");
    let array = TypeRef::Array { element: Box::new(named("i32")), length: 4 };
    assert_eq!(canonical_type_ref(&array, "T", &bindings), "[i32;4]");
    assert_eq!(canonical_type_ref(&generic("Map", vec![named("K"), named("V")]), "T", &bindings), "Map<K,V>");
    // A binding may name another associated type.
    let chained = vec![("A".to_string(), named("Self::B")), ("B".to_string(), named("bool"))];
    assert_eq!(canonical_type_ref(&named("Self::A"), "T", &chained), "bool");
    // The last binding of a name counts.
    let twice = vec![("A".to_string(), named("i8")), ("A".to_string(), named("i16"))];
    assert_eq!(canonical_type_ref(&named("Self::A"), "T", &twice), "i16");
}

fn signature(params: Vec<(bool, TypeRef)>, ret: Option<TypeRef>) -> Signature {
    Signature {
        parameters: params.into_iter().map(|(receiver, ty)| SignatureParam { receiver, ty }).collect(),
        return_type: ret,
    }
}

#[test]
fn trait_signatures_match_after_reading_self() {
    let bindings = vec![("Item".to_string(), named("i32"))];
    let declared = signature(vec![(true, ptr(named("Self"), true))], Some(generic("Option", vec![named("Self::Item")])));
    let implemented = signature(vec![(true, ptr(named("app.Counter"), true))], Some(generic("Option", vec![named("i32")])));
    assert!(trait_signature_matches(&declared, &implemented, "app.Counter", &bindings));
    let other = signature(vec![(true, ptr(named("app.Counter"), false))], Some(generic("Option", vec![named("i32")])));
    assert!(!trait_signature_matches(&declared, &other, "app.Counter", &bindings));
    let no_receiver = signature(vec![(false, ptr(named("app.Counter"), true))], Some(generic("Option", vec![named("i32")])));
    assert!(!trait_signature_matches(&declared, &no_receiver, "app.Counter", &bindings));
    let no_return = signature(vec![(true, ptr(named("app.Counter"), true))], None);
    assert!(!trait_signature_matches(&declared, &no_return, "app.Counter", &bindings));
}

#[test]
fn trait_impls_provide_exactly_the_trait_members() {
    let associated = vec!["Item".to_string()];
    let declared = vec![("next".to_string(), signature(vec![(true, ptr(named("Self"), true))], Some(named("Self::Item"))))];
    let good = vec![("next".to_string(), signature(vec![(true, ptr(named("C"), true))], Some(named("i32"))))];
    let bindings = vec![("Item".to_string(), named("i32"))];
    assert_eq!(check_trait_impl(&associated, &declared, "C", &bindings, &good), None);
    let fault = check_trait_impl(&associated, &declared, "C", &vec![], &good).unwrap();
    assert_eq!(fault.message("Iterator"), "impl of `Iterator` is missing associated type `Item`");
    let fault = check_trait_impl(&associated, &declared, "C", &bindings, &vec![]).unwrap();
    assert_eq!(fault.message("Iterator"), "impl of `Iterator` is missing method `next`");
    let wrong = vec![("next".to_string(), signature(vec![(true, ptr(named("C"), true))], Some(named("bool"))))];
    let fault = check_trait_impl(&associated, &declared, "C", &bindings, &wrong).unwrap();
    assert_eq!(fault, TraitImplFault::SignatureMismatch { index: 0, name: "next".to_string() });
    assert_eq!(fault.message("Iterator"), "method `next` does not match the `Iterator` declaration");
    let extra = vec![("Item".to_string(), named("i32")), ("Other".to_string(), named("i32"))];
    let fault = check_trait_impl(&associated, &declared, "C", &extra, &good).unwrap();
    assert_eq!(fault.message("Iterator"), "`Other` is not an associated type of `Iterator`");
    let mut more = vec![("next".to_string(), signature(vec![(true, ptr(named("C"), true))], Some(named("i32"))))];
    more.push(("peek".to_string(), signature(vec![], None)));
    let fault = check_trait_impl(&associated, &declared, "C", &bindings, &more).unwrap();
    assert_eq!(fault, TraitImplFault::NotAMethod { index: 1, name: "peek".to_string() });
    assert_eq!(fault.message("Iterator"), "`peek` is not a method of `Iterator`");
}

#[test]
fn an_associated_type_is_bound_once() {
    assert_eq!(first_repeated_binding(&vec![("A".to_string(), named("i8")), ("B".to_string(), named("i8"))]), None);
    assert_eq!(
        first_repeated_binding(&vec![("A".to_string(), named("i8")), ("B".to_string(), named("i8")), ("A".to_string(), named("u8"))]),
        Some(2)
    );
}
