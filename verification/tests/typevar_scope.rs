use basilisk_checker::typevar_scope::{ScopeViolationKind, TypeVarScopeViolation};

fn chars(s: &str) -> Vec<char> {
    s.chars().collect()
}

fn check(src: &str, tvs: &[&str]) -> basilisk_checker::typevar_scope::TypeVarScopeReport {
    let names: Vec<Vec<char>> = tvs.iter().map(|t| chars(t)).collect();
    TypeVarScopeViolation.check(&chars(src), &names)
}

#[test]
fn nested_class_reusing_outer_typevar_in_bases() {
    let src = "T = TypeVar('T')\nclass Outer(Generic[T]):\n    class Inner(Generic[T]):\n        pass\n";
    let r = check(src, &["T"]);
    assert_eq!(r.scope.len(), 1);
    assert_eq!(r.scope[0].kind, ScopeViolationKind::OuterTypeVarInNestedClassBases);
    assert_eq!(r.scope[0].line, 3);
    assert_eq!(r.scope[0].typevar, chars("T"));
    // span of the trimmed third line
    let start = "T = TypeVar('T')\nclass Outer(Generic[T]):\n    ".len() as u32;
    assert_eq!(r.scope[0].span.start, start);
    assert_eq!(r.scope[0].span.end, start + "class Inner(Generic[T]):".len() as u32);
}

#[test]
fn module_level_typevar_use_is_unbound() {
    let src = "T = TypeVar('T')\nx = list[T]()\n";
    let r = check(src, &["T"]);
    assert_eq!(r.scope.len(), 1);
    assert_eq!(r.scope[0].kind, ScopeViolationKind::UnboundAtModuleLevel);
    assert_eq!(r.scope[0].line, 2);
}

#[test]
fn no_typevars_no_findings() {
    let src = "x = list[T]()\n";
    let r = check(src, &[]);
    assert!(r.scope.is_empty());
    assert!(r.calls.is_empty());
}

#[test]
fn method_call_with_wrong_literal_type() {
    let src = "T = TypeVar('T')\nclass MyClass(Generic[T]):\n    def meth(self, x: T) -> None:\n        pass\na: MyClass[int] = MyClass()\na.meth('str')\n";
    let r = check(src, &["T"]);
    assert_eq!(r.calls.len(), 1);
    let m = &r.calls[0];
    assert_eq!(m.line, 6);
    assert_eq!(m.arg, chars("'str'"));
    assert_eq!(m.param_name, chars("x"));
    assert_eq!(m.expected, chars("int"));
    assert_eq!(m.var_name, chars("a"));
    assert_eq!(m.class_name, chars("MyClass"));
    assert_eq!(m.bindings, vec![(chars("T"), chars("int"))]);
}

#[test]
fn method_call_with_compatible_literal() {
    let src = "class MyClass(Generic[T]):\n    def meth(self, x: T) -> None:\n        pass\na: MyClass[float] = MyClass()\na.meth(3)\n";
    let r = check(src, &["T"]);
    assert!(r.calls.is_empty());
}

#[test]
fn scan_totality_is_tested_before_checking() {
    let names = vec![chars("T")];
    let good = chars("T = TypeVar('T')\nclass Outer(Generic[T]):\n    class Inner(Generic[T]):\n        pass\n");
    assert!(TypeVarScopeViolation.can_check(&good, &names));
    let r = TypeVarScopeViolation.check_if_total(&good, &names).unwrap();
    assert_eq!(r.scope.len(), 1);
    let bad = chars("T = TypeVar('T')\nclass Outer(Generic[T]):\n    class Inner)x(:\n        pass\n");
    assert!(!TypeVarScopeViolation.can_check(&bad, &names));
    assert!(TypeVarScopeViolation.check_if_total(&bad, &names).is_none());
}
