use basilisk_checker::position::Span;
use basilisk_checker::protocol_overlap::{
    check_exprs_for_violations, check_type_test_call, TestExpr, OverlapFinding, ProtoClass, ProtoFunction, ProtoParam, SecondArg, TypeTest,
    TypeTestCall,
};

fn chars(s: &str) -> Vec<char> {
    s.chars().collect()
}

fn class(name: &str, bases: &[&str], decorators: &[&str], attrs: &[&str]) -> ProtoClass {
    ProtoClass {
        name: chars(name),
        bases: bases.iter().map(|b| chars(b)).collect(),
        decorators: decorators.iter().map(|d| chars(d)).collect(),
        attributes: attrs.iter().map(|a| chars(a)).collect(),
    }
}

fn method(class: &str, name: &str, params: &[(&str, Option<&str>)], ret: Option<&str>) -> ProtoFunction {
    ProtoFunction {
        class_name: Some(chars(class)),
        name: chars(name),
        params: params.iter().map(|(n, a)| ProtoParam { name: chars(n), annotation: a.map(chars) }).collect(),
        return_annotation: ret.map(chars),
    }
}

fn call(test: TypeTest, first: Option<&str>, second: SecondArg) -> TypeTestCall {
    TypeTestCall { test, first_class: first.map(chars), second, span: Span { start: 10, end: 16 } }
}

fn module() -> (Vec<ProtoFunction>, Vec<ProtoClass>) {
    let classes = vec![
        class("Proto1", &["Protocol"], &[], &["name"]),
        class("Proto2", &["Protocol"], &["runtime_checkable"], &["name"]),
        class("Proto3", &["Protocol"], &["runtime_checkable"], &[]),
        class("Concrete", &[], &[], &[]),
        class("Good", &[], &[], &[]),
    ];
    let functions = vec![
        method("Proto3", "method", &[("self", None), ("x", Some("int"))], Some("int")),
        method("Concrete", "method", &[("self", None), ("x", Some("str"))], Some("int")),
        method("Good", "method", &[("self", None), ("x", Some("int"))], None),
    ];
    (functions, classes)
}

#[test]
fn protocol_must_be_runtime_checkable() {
    let (fs, cs) = module();
    let r = check_type_test_call(&call(TypeTest::IsInstance, None, SecondArg::Name(chars("Proto1"))), &fs, &cs).unwrap();
    assert!(matches!(r.finding, OverlapFinding::NotRuntimeCheckable));
    assert_eq!(r.protocol, chars("Proto1"));
    assert_eq!(r.span, Span { start: 10, end: 16 });
    // not a protocol of the module: nothing
    assert!(check_type_test_call(&call(TypeTest::IsInstance, None, SecondArg::Name(chars("int"))), &fs, &cs).is_none());
}

#[test]
fn data_protocol_in_issubclass() {
    let (fs, cs) = module();
    let r = check_type_test_call(&call(TypeTest::IsSubclass, None, SecondArg::Name(chars("Proto2"))), &fs, &cs).unwrap();
    assert!(matches!(r.finding, OverlapFinding::DataProtocolInIssubclass));
    assert!(check_type_test_call(&call(TypeTest::IsInstance, None, SecondArg::Name(chars("Proto2"))), &fs, &cs).is_none());
}

#[test]
fn unsafe_overlap_with_concrete_class() {
    let (fs, cs) = module();
    let r = check_type_test_call(&call(TypeTest::IsInstance, Some("Concrete"), SecondArg::Name(chars("Proto3"))), &fs, &cs)
        .unwrap();
    match r.finding {
        OverlapFinding::UnsafeOverlap { concrete } => assert_eq!(concrete, chars("Concrete")),
        _ => panic!("expected an unsafe overlap"),
    }
    // a missing return annotation is no clash
    assert!(check_type_test_call(&call(TypeTest::IsInstance, Some("Good"), SecondArg::Name(chars("Proto3"))), &fs, &cs).is_none());
    // in a tuple, the first element with a finding is reported
    let t = SecondArg::Tuple(vec![Some(chars("Proto3")), None, Some(chars("Proto1"))]);
    let r = check_type_test_call(&call(TypeTest::IsInstance, Some("Good"), t), &fs, &cs).unwrap();
    assert_eq!(r.protocol, chars("Proto1"));
    assert!(matches!(r.finding, OverlapFinding::NotRuntimeCheckable));
}

#[test]
fn type_tests_inside_expressions() {
    let (fs, cs) = module();
    let nested = TestExpr::Operands(vec![
        TestExpr::Other,
        TestExpr::OtherCall {
            func: Box::new(TestExpr::Other),
            args: vec![TestExpr::TypeTest(call(TypeTest::IsSubclass, None, SecondArg::Name(chars("Proto2"))))],
        },
        TestExpr::TypeTest(call(TypeTest::IsInstance, None, SecondArg::Name(chars("Proto1")))),
    ]);
    let mut out = Vec::new();
    check_exprs_for_violations(&vec![nested, TestExpr::Other], &fs, &cs, &mut out);
    assert_eq!(out.len(), 2);
    assert!(matches!(out[0].finding, OverlapFinding::DataProtocolInIssubclass));
    assert!(matches!(out[1].finding, OverlapFinding::NotRuntimeCheckable));
}
