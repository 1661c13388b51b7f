use basilisk_checker::ast::{Expr, ParamKind, Parameter, Stmt};
use basilisk_checker::callable_subtyping::{
    is_subtype, param_types_compat, parse_callable_sig, split_top_level_comma,
    CallableSubtypingViolation, CallableViolation,
};
use basilisk_checker::position::Span;

fn chars(s: &str) -> Vec<char> {
    s.chars().collect()
}

fn text(v: &[char]) -> String {
    v.iter().collect()
}

fn sp(a: u32, b: u32) -> Span {
    Span { start: a, end: b }
}

fn p(name: &str, ann: &str) -> Parameter {
    Parameter { name: chars(name), kind: ParamKind::Regular, annotation: Some(chars(ann)) }
}

fn ann_assign(ann: &str, rhs: &str, a: u32) -> Stmt {
    Stmt::AnnAssign {
        target: Expr::Name { id: chars("f"), span: sp(a, a + 1) },
        annotation: chars(ann),
        assigned: Some(Expr::Name { id: chars(rhs), span: sp(a + 5, a + 5 + rhs.len() as u32) }),
        span: sp(a, a + 10),
    }
}

#[test]
fn callable_assignments_in_function_bodies() {
    // def func(cb1: Callable[[float], int], cb2: Callable[[float], float],
    //          cb3: Callable[[int], int]) -> None:
    //     f6: Callable[[float], float] = cb3   # parameter int is narrower than float
    //     f8: Callable[[int], int] = cb2       # return float is not a subtype of int
    //     ok: Callable[[int], float] = cb1
    let func = Stmt::FunctionDef {
        name: chars("func"),
        decorators: vec![],
        params: vec![
            p("cb1", "Callable[[float], int]"),
            p("cb2", "Callable[[float], float]"),
            p("cb3", "Callable[[int], int]"),
        ],
        body: vec![
            ann_assign("Callable[[float], float]", "cb3", 100),
            ann_assign("Callable[[int], int]", "cb2", 200),
            ann_assign("Callable[[int], float]", "cb1", 300),
        ],
        span: sp(0, 400),
    };
    let class = Stmt::ClassDef { name: chars("C"), decorators: vec![], body: vec![func], span: sp(0, 500) };
    let r = CallableSubtypingViolation.check(&vec![class]);
    assert_eq!(r.len(), 2);
    match &r[0].violation {
        CallableViolation::ParamTypes { rhs_name, annotation } => {
            assert_eq!(text(rhs_name), "cb3");
            assert_eq!(text(annotation), "Callable[[float], float]");
        }
        _ => panic!("expected a parameter violation"),
    }
    assert_eq!((r[0].span.start, r[0].span.end), (100, 110));
    match &r[1].violation {
        CallableViolation::ReturnType { source_ret, target_ret } => {
            assert_eq!((text(source_ret), text(target_ret)), ("float".to_string(), "int".to_string()));
        }
        _ => panic!("expected a return violation"),
    }
}

#[test]
fn callable_helpers() {
    let sig = parse_callable_sig(&chars("Callable[[int, dict[str, int]], list[str]]")).unwrap();
    assert_eq!(sig.param_types.iter().map(|t| text(t)).collect::<Vec<_>>(), vec!["int", "dict[str, int]"]);
    assert_eq!(text(&sig.return_type), "list[str]");
    assert!(parse_callable_sig(&chars("Callable[..., int]")).is_none());
    assert!(parse_callable_sig(&chars("Callable[int]")).is_none());
    assert_eq!(parse_callable_sig(&chars("Callable[[], None]")).unwrap().param_types.len(), 0);
    let (a, b) = split_top_level_comma(&chars("[a, b], c")).unwrap();
    assert_eq!((text(&a), text(&b)), ("[a, b]".to_string(), " c".to_string()));
    assert!(split_top_level_comma(&chars("(a, b)")).is_none());
    assert!(is_subtype(&chars("bool"), &chars("float")));
    assert!(is_subtype(&chars("Any"), &chars("str")));
    assert!(!is_subtype(&chars("float"), &chars("int")));
    assert!(param_types_compat(&vec![chars("float")], &vec![chars("int")]));
    assert!(!param_types_compat(&vec![chars("int")], &vec![chars("float")]));
    assert!(param_types_compat(&vec![chars("int")], &vec![]));
}
