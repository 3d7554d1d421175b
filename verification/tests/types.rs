use nova::ttype::TType;
use nova::typechecker::{self, Environment, TypeChecker, TypeError};

fn g(n: &str) -> TType {
    TType::Generic { name: n.to_string() }
}

fn list(t: TType) -> TType {
    TType::List { inner: Box::new(t) }
}

fn show(t: &TType) -> String {
    match t {
        TType::Nil => "None".to_string(),
        TType::Any => "Any".to_string(),
        TType::Int => "Int".to_string(),
        TType::Float => "Float".to_string(),
        TType::Bool => "Bool".to_string(),
        TType::String => "String".to_string(),
        TType::Char => "Char".to_string(),
        TType::Void => "Void".to_string(),
        TType::Auto => "Auto".to_string(),
        TType::Generic { name } => format!("${}", name),
        TType::Custom { name, type_params } => {
            format!("{}({})", name, type_params.iter().map(show).collect::<Vec<_>>().join(","))
        }
        TType::List { inner } => format!("[{}]", show(inner)),
        TType::Function { parameters, return_type } => format!(
            "fn({})->{}",
            parameters.iter().map(show).collect::<Vec<_>>().join(","),
            show(return_type)
        ),
        TType::Option { inner } => format!("?{}", show(inner)),
        TType::Tuple { elements } => format!("({})", elements.iter().map(show).collect::<Vec<_>>().join(",")),
        TType::Dyn { own, contract } => format!(
            "Dyn({}={})",
            own,
            contract.iter().map(|(n, t)| format!("{}:{}", n, show(t))).collect::<Vec<_>>().join(",")
        ),
    }
}

#[test]
fn generic_detection() {
    assert!(TypeChecker::is_generic(&[TType::Int, list(g("T"))]));
    assert!(!TypeChecker::is_generic(&[TType::Int, list(TType::Bool)]));
    assert!(TypeChecker::is_generic(&[TType::Dyn { own: "T".to_string(), contract: vec![] }]));
    assert!(TypeChecker::is_generic(&[TType::Function { parameters: vec![TType::Int], return_type: Box::new(g("R")) }]));
    assert!(!TypeChecker::is_generic(&[]));
}

#[test]
fn replacing_type_variables() {
    let t = TType::Function { parameters: vec![g("T"), list(g("U"))], return_type: Box::new(TType::Option { inner: Box::new(g("T")) }) };
    let r = TypeChecker::replace_generic_types(&t, &["T".to_string(), "U".to_string()], &[TType::Int, TType::String]);
    assert_eq!(show(&r), "fn(Int,[String])->?Int");
    let unnamed = TypeChecker::replace_generic_types(&g("V"), &["T".to_string()], &[TType::Int]);
    assert_eq!(show(&unnamed), "$V");
}

#[test]
fn replacing_keeps_a_dyn_own_variable() {
    let d = TType::Dyn { own: "T".to_string(), contract: vec![("f".to_string(), g("T")), ("g".to_string(), g("U"))] };
    let r = TypeChecker::replace_generic_types(&d, &["U".to_string()], &[TType::Bool]);
    assert_eq!(show(&r), "Dyn(T=f:$T,g:Bool)");
}

#[test]
fn collecting_type_variables() {
    let t = vec![
        g("T"),
        TType::Custom { name: "Box".to_string(), type_params: vec![g("U"), g("T")] },
        TType::Tuple { elements: vec![TType::Int, g("W")] },
        TType::Dyn { own: "D".to_string(), contract: vec![("x".to_string(), g("Z"))] },
    ];
    let mut found = TypeChecker::collect_generics(&t);
    found.sort();
    assert_eq!(found, vec!["T".to_string(), "U".to_string(), "W".to_string()]);
}

#[test]
fn resolving_output_types() {
    let mut checker = typechecker::new();
    checker.environment.live_generics.push(vec!["V".to_string()]);
    checker.environment.live_generics.push(vec!["U".to_string()]);
    let map = vec![("T".to_string(), TType::Int)];
    let out = checker.get_output(&list(g("T")), &map).unwrap();
    assert_eq!(show(&out), "[Int]");
    let kept = checker.get_output(&list(g("U")), &map).unwrap();
    assert_eq!(show(&kept), "[$U]");
    let outer = checker.get_output(&g("V"), &map);
    assert_eq!(outer.err(), Some("V".to_string()));
    let err = checker.get_output(&TType::Tuple { elements: vec![g("A"), g("B")] }, &map);
    assert_eq!(err.err(), Some("A".to_string()));
}

fn custom(n: &str, ps: Vec<TType>) -> TType {
    TType::Custom { name: n.to_string(), type_params: ps }
}

fn func(ps: Vec<TType>, r: TType) -> TType {
    TType::Function { parameters: ps, return_type: Box::new(r) }
}

fn mismatch(r: Result<(), TypeError>) -> (String, String) {
    match r {
        Err(TypeError::Mismatch { expected, found }) => (show(&expected), show(&found)),
        other => panic!("expected a mismatch, got {:?}", other),
    }
}

/// A checker that knows `Point { x: Int, y: Int }`, `Named { name: String, draw: fn(Int) -> String }`,
/// and the generic `Cell(T) { value: T }`.
fn shapes() -> TypeChecker {
    typechecker::with_environment(Environment {
        custom_types: vec![
            ("Point".to_string(), vec![("x".to_string(), TType::Int), ("y".to_string(), TType::Int)]),
            (
                "Named".to_string(),
                vec![("name".to_string(), TType::String), ("draw".to_string(), func(vec![TType::Int], TType::String))],
            ),
            ("Cell".to_string(), vec![("value".to_string(), g("T"))]),
        ],
        generic_type_struct: vec![("Cell".to_string(), vec!["T".to_string()])],
        live_generics: vec![vec![]],
        type_alias: vec![],
    })
}

#[test]
fn binding_type_variables() {
    let checker = typechecker::new();
    let mut map = Vec::new();
    let r = checker.check_and_map_types(&[g("T"), list(g("T"))], &[TType::Int, list(TType::Int)], &mut map);
    assert!(r.is_ok());
    assert_eq!(map.len(), 1);
    assert_eq!(map[0].0, "T");
    assert_eq!(show(&map[0].1), "Int");
}

#[test]
fn conflicting_binding_is_a_mismatch() {
    let checker = typechecker::new();
    let mut map = Vec::new();
    let r = checker.check_and_map_types(&[g("T"), g("T")], &[TType::Int, TType::Bool], &mut map);
    assert_eq!(mismatch(r), ("Int".to_string(), "Bool".to_string()));
    assert_eq!(map.len(), 1);
}

#[test]
fn argument_count_is_checked_first() {
    let checker = typechecker::new();
    let mut map = Vec::new();
    let r = checker.check_and_map_types(&[TType::Int, TType::Int], &[TType::Int], &mut map);
    match r {
        Err(TypeError::ArgumentCount { expected, found }) => assert_eq!((expected, found), (2, 1)),
        other => panic!("expected an argument count error, got {:?}", other),
    }
    assert!(map.is_empty());
}

#[test]
fn any_matches_all_but_none() {
    let checker = typechecker::new();
    let mut map = Vec::new();
    assert!(checker.check_and_map_types(&[TType::Any, TType::Int], &[TType::String, TType::Any], &mut map).is_ok());
    let r = checker.check_and_map_types(&[TType::Any], &[TType::Nil], &mut map);
    assert_eq!(mismatch(r), ("Any".to_string(), "None".to_string()));
    let r = checker.check_and_map_types(&[g("T")], &[TType::Void], &mut map);
    assert_eq!(mismatch(r), ("$T".to_string(), "Void".to_string()));
    assert!(map.is_empty());
}

#[test]
fn functions_match_part_by_part() {
    let checker = typechecker::new();
    let mut map = Vec::new();
    let want = func(vec![g("A")], TType::Option { inner: Box::new(g("B")) });
    let have = func(vec![TType::Char], TType::Option { inner: Box::new(TType::Float) });
    assert!(checker.check_and_map_types(&[want], &[have], &mut map).is_ok());
    let shown: Vec<(String, String)> = map.iter().map(|(n, t)| (n.clone(), show(t))).collect();
    assert_eq!(shown, vec![("A".to_string(), "Char".to_string()), ("B".to_string(), "Float".to_string())]);
    let r = checker.check_and_map_types(&[func(vec![TType::Int], TType::Int)], &[func(vec![], TType::Int)], &mut map);
    assert_eq!(mismatch(r), ("fn(Int)->Int".to_string(), "fn()->Int".to_string()));
}

#[test]
fn struct_names_must_agree() {
    let checker = typechecker::new();
    let mut map = Vec::new();
    assert!(checker.check_and_map_types(&[custom("Box", vec![g("T")])], &[custom("Box", vec![TType::Int])], &mut map).is_ok());
    let r = checker.check_and_map_types(&[custom("Box", vec![])], &[custom("Crate", vec![])], &mut map);
    assert_eq!(mismatch(r), ("Box()".to_string(), "Crate()".to_string()));
    let r = checker.check_and_map_types(&[custom("Box", vec![TType::Int])], &[custom("Box", vec![])], &mut map);
    assert!(matches!(r, Err(TypeError::ArgumentCount { expected: 1, found: 0 })));
}

#[test]
fn dyn_contract_accepts_a_struct_with_the_fields() {
    let checker = shapes();
    let mut map = Vec::new();
    let d = || TType::Dyn { own: "T".to_string(), contract: vec![("x".to_string(), TType::Int)] };
    assert!(checker.check_and_map_types(&[d()], &[custom("Point", vec![])], &mut map).is_ok());
    assert_eq!(map.len(), 1);
    assert_eq!(map[0].0, "__dyn_T");
    assert_eq!(show(&map[0].1), "Point()");
    let r = checker.check_and_map_types(&[d()], &[custom("Named", vec![])], &mut map);
    assert_eq!(mismatch(r), ("Point()".to_string(), "Named()".to_string()));
}

#[test]
fn dyn_contract_rejects_missing_or_mistyped_fields() {
    let checker = shapes();
    let mut map = Vec::new();
    let missing = TType::Dyn { own: "T".to_string(), contract: vec![("z".to_string(), TType::Int)] };
    let r = checker.check_and_map_types(&[missing], &[custom("Point", vec![])], &mut map);
    assert_eq!(mismatch(r), ("Dyn(T=z:Int)".to_string(), "Point()".to_string()));
    let mut map = Vec::new();
    let mistyped = TType::Dyn { own: "T".to_string(), contract: vec![("name".to_string(), TType::Int)] };
    let r = checker.check_and_map_types(&[mistyped], &[custom("Named", vec![])], &mut map);
    assert_eq!(mismatch(r), ("Int".to_string(), "String".to_string()));
    let mut map = Vec::new();
    let unknown = TType::Dyn { own: "T".to_string(), contract: vec![] };
    let r = checker.check_and_map_types(&[unknown], &[custom("Ghost", vec![])], &mut map);
    assert_eq!(mismatch(r), ("Dyn(T=)".to_string(), "Ghost()".to_string()));
    assert!(map.is_empty());
}

#[test]
fn dyn_contract_sees_generic_struct_fields_instantiated() {
    let checker = shapes();
    let mut map = Vec::new();
    let d = || TType::Dyn { own: "S".to_string(), contract: vec![("value".to_string(), TType::Bool)] };
    assert!(checker.check_and_map_types(&[d()], &[custom("Cell", vec![TType::Bool])], &mut map).is_ok());
    let mut map = Vec::new();
    let r = checker.check_and_map_types(&[d()], &[custom("Cell", vec![TType::Int])], &mut map);
    assert_eq!(mismatch(r), ("Bool".to_string(), "Int".to_string()));
}

#[test]
fn dyn_own_variable_scopes_the_contract() {
    let checker = shapes();
    let mut map = vec![("T".to_string(), TType::Char)];
    let d = TType::Dyn { own: "T".to_string(), contract: vec![("draw".to_string(), func(vec![TType::Int], TType::String))] };
    let r = checker.check_contracts(&mut map, &d, &custom("Named", vec![]), &"T".to_string(), &vec![("draw".to_string(), func(vec![TType::Int], TType::String))], &"Named".to_string());
    assert!(r.is_ok());
    assert_eq!(map.len(), 2);
    assert_eq!(map[1].0, "__dyn_T");
    assert!(checker.check_and_map_types(&[d], &[g("T")], &mut map).is_ok());
    let other = TType::Dyn { own: "T".to_string(), contract: vec![] };
    let r = checker.check_and_map_types(&[other], &[g("Q")], &mut map);
    assert_eq!(mismatch(r), ("$T".to_string(), "$Q".to_string()));
}

#[test]
fn bound_dyn_variable_checks_the_contract() {
    let checker = shapes();
    let d = TType::Dyn { own: "D".to_string(), contract: vec![("y".to_string(), TType::Int)] };
    let mut map = vec![("T".to_string(), d)];
    assert!(checker.check_and_map_types(&[g("T")], &[custom("Point", vec![])], &mut map).is_ok());
    assert_eq!(map.len(), 2);
    let r = checker.check_and_map_types(&[g("T")], &[TType::Int], &mut map);
    assert_eq!(mismatch(r), ("Dyn(D=y:Int)".to_string(), "Int".to_string()));
}

#[test]
fn ground_types_stay_as_they_are() {
    let t = func(vec![list(TType::Int), custom("Box", vec![TType::Bool])], TType::Option { inner: Box::new(TType::Char) });
    let r = TypeChecker::replace_generic_types(&t, &["T".to_string()], &[TType::String]);
    assert_eq!(show(&r), show(&t));
    let mut checker = typechecker::new();
    checker.environment.live_generics.push(vec![]);
    let out = checker.get_output(&t, &[("T".to_string(), TType::Int)]).unwrap();
    assert_eq!(show(&out), show(&t));
}

#[test]
fn a_bound_variable_resolves_to_its_binding() {
    let mut checker = typechecker::new();
    checker.environment.live_generics.push(vec![]);
    let mut map = Vec::new();
    let found = custom("Pair", vec![TType::Int, list(TType::Char)]);
    assert!(checker.check_and_map_types(&[g("P")], &[found], &mut map).is_ok());
    let out = checker.get_output(&g("P"), &map).unwrap();
    assert_eq!(show(&out), "Pair(Int,[Char])");
}

#[test]
fn earlier_bindings_are_kept() {
    let checker = typechecker::new();
    let mut map = vec![("T".to_string(), TType::Int)];
    let r = checker.check_and_map_types(&[g("U"), g("T")], &[TType::Bool, TType::String], &mut map);
    assert_eq!(mismatch(r), ("Int".to_string(), "String".to_string()));
    let shown: Vec<(String, String)> = map.iter().map(|(n, t)| (n.clone(), show(t))).collect();
    assert_eq!(shown, vec![("T".to_string(), "Int".to_string()), ("U".to_string(), "Bool".to_string())]);
}

#[test]
fn dyn_name_contract_accepts_any_struct_with_a_name() {
    let checker = typechecker::with_environment(Environment {
        custom_types: vec![
            ("Dog".to_string(), vec![("name".to_string(), TType::String), ("age".to_string(), TType::Int)]),
            ("Robot".to_string(), vec![("id".to_string(), TType::Int), ("name".to_string(), TType::String)]),
            ("Rock".to_string(), vec![("weight".to_string(), TType::Float)]),
        ],
        generic_type_struct: vec![],
        live_generics: vec![vec![]],
        type_alias: vec![],
    });
    let thing = || TType::Dyn { own: "T".to_string(), contract: vec![("name".to_string(), TType::String)] };
    for s in ["Dog", "Robot"] {
        let mut map = Vec::new();
        assert!(checker.check_and_map_types(&[thing()], &[custom(s, vec![])], &mut map).is_ok());
        assert_eq!(map.len(), 1);
        assert_eq!(show(&map[0].1), format!("{}()", s));
    }
    let mut map = Vec::new();
    let r = checker.check_and_map_types(&[thing()], &[custom("Rock", vec![])], &mut map);
    assert_eq!(mismatch(r), ("Dyn(T=name:String)".to_string(), "Rock()".to_string()));
}

#[test]
fn checks_without_a_result_are_unresolved() {
    let checker = shapes();
    let mut map = Vec::new();
    let d = TType::Dyn { own: "S".to_string(), contract: vec![("value".to_string(), TType::Bool)] };
    let r = checker.check_and_map_types(&[d], &[custom("Cell", vec![])], &mut map);
    assert!(matches!(r, Err(TypeError::Unresolved)));
    let mut map = Vec::new();
    let r = checker.check_contracts(&mut map, &g("X"), &list(TType::Int), &"T".to_string(), &vec![], &"Point".to_string());
    assert!(matches!(r, Err(TypeError::Unresolved)));
}

#[test]
fn a_successful_check_resolves_the_expected_types() {
    let mut checker = typechecker::new();
    checker.environment.live_generics.push(vec![]);
    let expected = || vec![func(vec![g("A")], list(g("B"))), TType::Tuple { elements: vec![g("A"), TType::Bool] }];
    let found = vec![func(vec![TType::Int], list(TType::Char)), TType::Tuple { elements: vec![TType::Int, TType::Bool] }];
    let mut map = Vec::new();
    assert!(checker.check_and_map_types(&expected(), &found, &mut map).is_ok());
    for (e, f) in expected().iter().zip(found.iter()) {
        assert_eq!(show(&checker.get_output(e, &map).unwrap()), show(f));
    }
}
