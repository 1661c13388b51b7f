use basilisk_checker::generator::ExprType;
use basilisk_checker::generator_mismatch::{
    GeneratorFinding, GeneratorFunction, GeneratorTypeMismatch,
};
use basilisk_checker::position::Span;

fn chars(s: &str) -> Vec<char> {
    s.chars().collect()
}

fn text(v: &[char]) -> String {
    v.iter().collect()
}

fn func(src: &str, name: &str, ann: &str, returns: Vec<(bool, bool)>) -> GeneratorFunction {
    let start = src.find(&format!("def {name}")).unwrap() as u32;
    GeneratorFunction {
        name: chars(name),
        def_span: Span { start, end: start + 3 },
        return_annotation: Some(chars(ann)),
        return_stmts: returns,
    }
}

#[test]
fn generator_yield_send_and_return_types() {
    let src = "def gen() -> Generator[int, None, str]:\n    yield \"a\"\n    yield 1\n    return\n\n\
               def inner() -> Generator[str, int, None]:\n    yield \"x\"\n\n\
               def outer() -> Generator[int, str, None]:\n    yield from inner()\n    yield from [1.5, 2.5]\n";
    let functions = vec![
        func(src, "gen", "Generator[int, None, str]", vec![(false, false)]),
        func(src, "inner", " Generator[str, int, None] ", vec![]),
        func(src, "outer", "Generator[int, str, None]", vec![]),
    ];
    let r = GeneratorTypeMismatch.check(&functions, &chars(src));
    assert_eq!(r.len(), 5);
    let yield_a = src.find("yield \"a\"").unwrap() as u32;
    let from_inner = src.find("yield from inner").unwrap() as u32;
    let from_list = src.find("yield from [").unwrap() as u32;
    assert_eq!(text(&r[0].function), "gen");
    match &r[0].finding {
        GeneratorFinding::YieldType { offset, expected, got } => {
            assert_eq!(*offset, yield_a);
            assert_eq!((text(expected), text(got)), ("int".to_string(), "\"a\"".to_string()));
        }
        _ => panic!("expected a yield type finding"),
    }
    match &r[1].finding {
        GeneratorFinding::MissingReturn { def_span, return_type } => {
            assert_eq!((def_span.start, def_span.end), (0, 3));
            assert_eq!(text(return_type), "str");
        }
        _ => panic!("expected a missing return"),
    }
    assert_eq!(text(&r[2].function), "outer");
    match &r[2].finding {
        GeneratorFinding::YieldFromType { offset, callee, callee_yield, expected } => {
            assert_eq!(*offset, from_inner);
            assert_eq!((text(callee), text(callee_yield), text(expected)), ("inner".into(), "str".into(), "int".into()));
        }
        _ => panic!("expected a delegated yield type finding"),
    }
    match &r[3].finding {
        GeneratorFinding::YieldFromSend { callee, inner_send, outer_send, .. } => {
            assert_eq!((text(callee), text(inner_send), text(outer_send)), ("inner".into(), "int".into(), "str".into()));
        }
        _ => panic!("expected a send type finding"),
    }
    match &r[4].finding {
        GeneratorFinding::YieldFromList { offset, element, expected } => {
            assert_eq!(*offset, from_list);
            assert_eq!(*element, ExprType::Float);
            assert_eq!(text(expected), "int");
        }
        _ => panic!("expected a list element finding"),
    }
}

#[test]
fn generator_compatible_yields_and_valid_returns() {
    let src = "def ok() -> Iterator[float]:\n    yield 1\n    yield 2.0\n    yield Any()\n\n\
               def ret() -> Generator[int, None, str]:\n    yield True\n    return make()\n\n\
               def plain() -> int:\n    yield \"s\"\n";
    let functions = vec![
        func(src, "ok", "Iterator[float]", vec![]),
        func(src, "ret", "Generator[int, None, str]", vec![(true, true)]),
        func(src, "plain", "int", vec![]),
    ];
    assert!(GeneratorTypeMismatch.check(&functions, &chars(src)).is_empty());
}
