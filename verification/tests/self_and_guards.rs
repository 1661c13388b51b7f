use basilisk_checker::module::{
    CallArg, CallSite, ClassSite, FunctionSite, ParamSite, TypeVarCall, VarSite,
};
use basilisk_checker::position::Span;
use basilisk_checker::self_location::{contains_self, SelfContext, SelfInvalidLocation, SelfIssue};
use basilisk_checker::typeguard::{
    extract_callable_return_type, extract_guard_inner, is_compatible_return_type,
    is_typeguard_or_typeis, TypeGuardCallableReturnMismatch,
};

fn chars(s: &str) -> Vec<char> {
    s.chars().collect()
}

fn text(v: &[char]) -> String {
    v.iter().collect()
}

fn sp(a: u32, b: u32) -> Span {
    Span { start: a, end: b }
}

fn param(name: &str, ann: Option<&str>, a: u32) -> ParamSite {
    ParamSite { name: chars(name), name_span: sp(a, a + name.len() as u32), annotation: ann.map(chars) }
}

fn func(name: &str, class: Option<&str>, decorators: &[&str], params: Vec<ParamSite>, ret: Option<&str>, at: u32) -> FunctionSite {
    FunctionSite {
        name: chars(name),
        name_span: sp(at, at + name.len() as u32),
        class_name: class.map(chars),
        decorators: decorators.iter().map(|d| chars(d)).collect(),
        params,
        vararg: None,
        kwarg: None,
        return_annotation: ret.map(chars),
    }
}

fn class(name: &str, bases: &[&str], base_names: &[&str], is_protocol: bool, at: u32) -> ClassSite {
    ClassSite {
        name: chars(name),
        name_span: sp(at, at + name.len() as u32),
        bases: bases.iter().map(|b| chars(b)).collect(),
        base_expression_names: base_names.iter().map(|b| chars(b)).collect(),
        is_protocol,
    }
}

#[test]
fn self_outside_class_bindings_is_reported() {
    let functions = vec![
        func("foo", None, &[], vec![param("bar", Some("Self"), 8)], Some("Self"), 4),
        func("make", Some("Base"), &["staticmethod"], vec![], Some("Self"), 40),
        func("__new__", Some("MyMeta"), &[], vec![param("cls", None, 70)], Some("Self"), 60),
        func("ok", Some("Base"), &[], vec![param("self", None, 90)], Some("Self"), 85),
        func("f", Some("Base"), &[], vec![param("self", Some("TFoo"), 110)], Some("Self"), 100),
    ];
    let vars = vec![
        VarSite { name: chars("bar"), name_span: sp(200, 203), annotation: Some(chars("Self")), rhs: None },
        VarSite { name: chars("Alias"), name_span: sp(210, 215), annotation: Some(chars("TypeAlias")), rhs: Some(chars("tuple[Self]")) },
        VarSite { name: chars("fine"), name_span: sp(220, 224), annotation: Some(chars("SelfLike")), rhs: None },
    ];
    let classes = vec![
        class("Base", &[], &[], false, 30),
        class("MyMeta", &["type"], &["type"], false, 50),
        class("Foo", &["Bar"], &["Bar", "Self"], false, 300),
    ];
    let tvs = vec![TypeVarCall { name: chars("TFoo"), span: sp(0, 4), is_typevartuple: false, is_paramspec: false }];
    let diags = SelfInvalidLocation.check(&functions, &vars, &classes, &tvs);
    let spans: Vec<(u32, u32)> = diags.iter().map(|d| (d.span.start, d.span.end)).collect();
    assert_eq!(spans, vec![(8, 11), (4, 7), (40, 44), (60, 67), (100, 101), (200, 203), (210, 215), (300, 303)]);
    match &diags[0].issue {
        SelfIssue::Param { context, param, function } => {
            assert_eq!(*context, SelfContext::ModuleFunction);
            assert_eq!((text(param), text(function)), ("bar".into(), "foo".into()));
        }
        _ => panic!("expected a parameter finding"),
    }
    match &diags[3].issue {
        SelfIssue::Return { context, .. } => assert_eq!(*context, SelfContext::MetaclassMethod),
        _ => panic!("expected a return finding"),
    }
    match &diags[4].issue {
        SelfIssue::TypeVarSelf { function, typevar } => {
            assert_eq!((text(function), text(typevar)), ("f".into(), "TFoo".into()));
        }
        _ => panic!("expected a TypeVar self finding"),
    }
    assert!(matches!(diags[6].issue, SelfIssue::Alias { .. }));
    assert!(matches!(diags[7].issue, SelfIssue::Base { .. }));
}

#[test]
fn self_word_boundaries() {
    assert!(contains_self(&chars("list[Self]")));
    assert!(!contains_self(&chars("SelfType")));
    assert!(!contains_self(&chars("_Self")));
    assert!(contains_self(&chars("éSelf")));
}

#[test]
fn typeguard_passed_where_str_callable_expected() {
    let functions = vec![
        func("takes_callable_str", None, &[], vec![param("f", Some("Callable[[object], str]"), 0)], Some("None"), 0),
        func("takes_proto", None, &[], vec![param("f", Some("Checker"), 0)], Some("None"), 0),
        func("takes_bool", None, &[], vec![param("f", Some("Callable[[object], bool]"), 0)], Some("None"), 0),
        func("simple_typeguard", None, &[], vec![param("val", Some("object"), 0)], Some(" TypeGuard[int] "), 0),
        func("__call__", Some("Checker"), &[], vec![], Some("TypeIs[int]"), 0),
    ];
    let classes = vec![class("Checker", &["Protocol"], &["Protocol"], true, 0)];
    let call = |callee: &str, a: u32| CallSite {
        callee: chars(callee),
        args: vec![CallArg { text: Some(chars("simple_typeguard")), span: sp(a, a + 16) }],
    };
    let calls = vec![call("takes_callable_str", 10), call("takes_bool", 40), call("takes_proto", 70)];
    let diags = TypeGuardCallableReturnMismatch.check(&functions, &classes, &calls);
    assert_eq!(diags.len(), 2);
    assert_eq!(text(&diags[0].expected_return), "str");
    assert_eq!(text(&diags[0].guard_return), "TypeGuard[int]");
    assert_eq!(text(&diags[0].callee), "takes_callable_str");
    assert_eq!((diags[0].span.start, diags[0].span.end), (10, 26));
    assert_eq!(text(&diags[1].expected_return), "TypeIs[int]");
    assert_eq!((diags[1].span.start, diags[1].span.end), (70, 86));
}

#[test]
fn typeguard_helpers() {
    assert!(is_typeguard_or_typeis(&chars("  TypeIs[str]")));
    assert!(!is_typeguard_or_typeis(&chars("bool")));
    assert_eq!(text(&extract_callable_return_type(&chars("Callable[[int, dict[str, int]], list[int]]")).unwrap()), "list[int]");
    assert!(extract_callable_return_type(&chars("Callable[..., ]")).is_none());
    assert_eq!(text(&extract_guard_inner(&chars("TypeGuard[list[int]]")).unwrap()), "list[int]");
    assert!(is_compatible_return_type(&chars("bool"), &chars("TypeIs[int]")));
    assert!(is_compatible_return_type(&chars("TypeIs[int]"), &chars("TypeIs[int]")));
    assert!(!is_compatible_return_type(&chars("TypeIs[int]"), &chars("TypeIs[bool]")));
    assert!(!is_compatible_return_type(&chars("TypeGuard[int]"), &chars("TypeIs[int]")));
    assert!(!is_compatible_return_type(&chars("str"), &chars("TypeGuard[int]")));
}
