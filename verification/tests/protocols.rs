use basilisk_checker::module::{FunctionSite, ParamSite};
use basilisk_checker::position::Span;
use basilisk_checker::protocol_variance::{
    bracket_depth, contains_typevar, typevar_only_in_subscript, ProtocolClass,
    ProtocolVarianceMismatch, SuggestedVariance, VarianceDecl,
};
use basilisk_checker::protocol_violation::{
    typevar_in_invariant_container, ProtocolClassDef, ProtocolVarianceViolation, TypeVarDecl,
    ViolationKind,
};
use basilisk_checker::type_is::{
    extract_inner_type, is_consistent, split_generic, NarrowingFunction, TypeIsInconsistentNarrowing,
};

fn chars(s: &str) -> Vec<char> {
    s.chars().collect()
}

fn text(v: &[char]) -> String {
    v.iter().collect()
}

fn sp(a: u32, b: u32) -> Span {
    Span { start: a, end: b }
}

fn param(name: &str, ann: Option<&str>) -> ParamSite {
    ParamSite { name: chars(name), name_span: sp(0, 0), annotation: ann.map(chars) }
}

fn method(name: &str, class: &str, params: Vec<ParamSite>, ret: Option<&str>) -> FunctionSite {
    FunctionSite {
        name: chars(name),
        name_span: sp(0, 0),
        class_name: Some(chars(class)),
        decorators: vec![],
        params,
        vararg: None,
        kwarg: None,
        return_annotation: ret.map(chars),
    }
}

fn proto(name: &str, params: &[&str], attrs: Vec<Option<&str>>) -> ProtocolClass {
    ProtocolClass {
        name: chars(name),
        name_span: sp(10, 10 + name.len() as u32),
        base_expression_names: vec![chars("Protocol"), chars("T")],
        generic_params: params.iter().map(|p| chars(p)).collect(),
        attribute_annotations: attrs.into_iter().map(|a| a.map(chars)).collect(),
    }
}

fn tv(name: &str, co: bool, contra: bool) -> VarianceDecl {
    VarianceDecl { name: chars(name), is_covariant: co, is_contravariant: contra }
}

#[test]
fn invariant_typevar_used_only_in_returns_should_be_covariant() {
    // T = TypeVar("T")
    // class MyProto(Protocol[T]):
    //     def method(self) -> T: ...
    let classes = vec![proto("MyProto", &["T"], vec![])];
    let functions = vec![method("method", "MyProto", vec![param("self", None)], Some("T"))];
    let r = ProtocolVarianceMismatch.check(&classes, &functions, &vec![tv("T", false, false)]);
    assert_eq!(r.len(), 1);
    assert_eq!((text(&r[0].class_name), text(&r[0].typevar)), ("MyProto".to_string(), "T".to_string()));
    assert_eq!(r[0].suggested, SuggestedVariance::Covariant);
    assert_eq!((r[0].span.start, r[0].span.end), (10, 17));
}

#[test]
fn protocol_variance_other_outcomes() {
    let functions = vec![
        method("put", "Sink", vec![param("self", None), param("x", Some("T"))], Some("None")),
        method("get", "Box", vec![param("self", None)], Some("list[T]")),
        method("both", "Both", vec![param("self", None), param("x", Some("T"))], Some("T")),
    ];
    let classes = vec![
        proto("Sink", &["T"], vec![]),
        proto("Box", &["T"], vec![]),
        proto("Both", &["T"], vec![]),
        proto("Attr", &["T"], vec![Some("T | None")]),
        proto("Unused", &["T"], vec![]),
        proto("Declared", &["T_co"], vec![]),
    ];
    let tvs = vec![tv("T", false, false), tv("T_co", true, false)];
    let r = ProtocolVarianceMismatch.check(&classes, &functions, &tvs);
    let got: Vec<(String, SuggestedVariance)> =
        r.iter().map(|s| (text(&s.class_name), s.suggested)).collect();
    assert_eq!(
        got,
        vec![
            ("Sink".to_string(), SuggestedVariance::Contravariant),
            ("Unused".to_string(), SuggestedVariance::Covariant),
        ]
    );
}

#[test]
fn occurrence_scans() {
    assert!(contains_typevar(&chars("list[T]"), &chars("T")));
    assert!(!contains_typevar(&chars("T1_co"), &chars("T1")));
    assert!(typevar_only_in_subscript(&chars("dict[K, list[T]]"), &chars("T")));
    assert!(!typevar_only_in_subscript(&chars("T | list[T]"), &chars("T")));
    assert!(!typevar_only_in_subscript(&chars("int"), &chars("T")));
    assert_eq!(bracket_depth(&chars("a[b[c]")), 1);
    assert_eq!(bracket_depth(&chars("]]a[")), 1);
}

fn narrowing(params: Vec<ParamSite>, ret: Option<&str>) -> NarrowingFunction {
    NarrowingFunction { params, return_annotation: ret.map(|r| (chars(r), sp(30, 30 + r.len() as u32))) }
}

#[test]
fn typeis_narrowing_consistency() {
    let functions = vec![
        narrowing(vec![param("val", Some("int"))], Some("TypeIs[str]")),
        narrowing(vec![param("self", None), param("val", Some("float"))], Some("TypeIs[int]")),
        narrowing(vec![param("val", Some("list[object]"))], Some("TypeIs[list[int]]")),
        narrowing(vec![param("val", Some("int"))], Some("TypeGuard[str]")),
        narrowing(vec![param("val", Some("Sequence[T]"))], Some("TypeIs[list[T]]")),
    ];
    let r = TypeIsInconsistentNarrowing.check(&functions);
    let got: Vec<(String, String)> = r.iter().map(|m| (text(&m.narrowed), text(&m.param_type))).collect();
    assert_eq!(
        got,
        vec![("str".to_string(), "int".to_string()), ("list[int]".to_string(), "list[object]".to_string())]
    );
    assert_eq!((r[0].span.start, r[0].span.end), (30, 41));
    assert_eq!(extract_inner_type(&chars("TypeIs[dict[str, int]] | None")).map(|v| text(&v)), Some("dict[str, int]".to_string()));
    assert_eq!(extract_inner_type(&chars("TypeIs[list[int]")), None);
    assert!(is_consistent(&chars("bool"), &chars("complex")));
    assert!(!is_consistent(&chars("float"), &chars("int")));
    assert!(is_consistent(&chars("T_A"), &chars("int")));
    let (b, a) = split_generic(&chars("Mapping[str, list[int]]")).unwrap();
    assert_eq!((text(&b), text(&a)), ("Mapping".to_string(), "str, list[int]".to_string()));
}

fn def(name: &str, protocol: bool, params: &[&str]) -> ProtocolClassDef {
    ProtocolClassDef {
        name: chars(name),
        def_span: sp(0, 5),
        is_protocol: protocol,
        generic_params: params.iter().map(|p| chars(p)).collect(),
    }
}

fn decl(name: &str, co: bool, contra: bool) -> TypeVarDecl {
    TypeVarDecl { name: chars(name), is_covariant: co, is_contravariant: contra, is_paramspec: false, is_typevartuple: false }
}

#[test]
fn protocol_variance_violations() {
    let functions = vec![
        method("get", "Out", vec![param("self", None)], Some("Sequence[T]")),
        method("put", "In", vec![param("self", None), param("x", Some("T"))], None),
        method("put", "Co", vec![param("self", None), param("x", Some("T_co"))], Some("T_co")),
        method("get", "Contra", vec![param("self", None)], Some("T_contra")),
        method("__init__", "Init", vec![param("self", None), param("x", Some("T"))], None),
        method("get", "Nested", vec![param("self", None)], Some("list[T]")),
    ];
    let classes = vec![
        def("Out", true, &["T"]),
        def("In", true, &["T"]),
        def("Co", true, &["T_co"]),
        def("Contra", true, &["T_contra"]),
        def("Init", true, &["T"]),
        def("Nested", true, &["T"]),
        def("Plain", false, &["T"]),
    ];
    let tvs = vec![decl("T", false, false), decl("T_co", true, false), decl("T_contra", false, true)];
    let r = ProtocolVarianceViolation.check(&classes, &functions, &tvs);
    let got: Vec<(String, ViolationKind)> = r.iter().map(|v| (text(&v.class_name), v.kind)).collect();
    assert_eq!(
        got,
        vec![
            ("Out".to_string(), ViolationKind::ShouldBeCovariant),
            ("In".to_string(), ViolationKind::ShouldBeContravariant),
            ("Co".to_string(), ViolationKind::CovariantInInput),
            ("Contra".to_string(), ViolationKind::ContravariantInOutput),
            ("Init".to_string(), ViolationKind::ShouldBeCovariant),
        ]
    );
    assert!(typevar_in_invariant_container(&chars("list[T]"), &chars("T")));
    assert!(!typevar_in_invariant_container(&chars("Iterator[T]"), &chars("T")));
    assert!(!typevar_in_invariant_container(&chars(" T "), &chars("T")));
}
