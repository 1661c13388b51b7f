use basilisk_checker::callable_calls::{check_function, BodyStmt, CallFinding, CallNode, CallableParam};
use basilisk_checker::position::Span;

fn chars(s: &str) -> Vec<char> {
    s.chars().collect()
}

fn sp(a: u32) -> Span {
    Span { start: a, end: a + 1 }
}

fn lit(t: &str, a: u32) -> CallNode {
    CallNode::Value { literal_type: Some(chars(t)), span: sp(a) }
}

fn call(name: &str, args: Vec<CallNode>, keywords: Vec<CallNode>, a: u32) -> CallNode {
    CallNode::Call { callee: Some(chars(name)), args, keywords, span: Span { start: a, end: a + 10 } }
}

fn cb() -> Vec<CallableParam> {
    vec![
        CallableParam { name: chars("cb"), expected_args: Some(2), arg_types: vec![chars("int"), chars("str")] },
        CallableParam { name: chars("any"), expected_args: None, arg_types: vec![] },
    ]
}

#[test]
fn callable_parameter_calls() {
    let body = vec![
        BodyStmt::Holds(call("cb", vec![lit("int", 3)], vec![], 0)),
        BodyStmt::Holds(call("cb", vec![lit("int", 13), lit("str", 15), lit("int", 17)], vec![], 10)),
        BodyStmt::Compound(vec![vec![BodyStmt::Holds(call("cb", vec![], vec![lit("int", 23)], 20))]]),
        BodyStmt::Holds(call("cb", vec![lit("bool", 33), lit("int", 35)], vec![], 30)),
        BodyStmt::Holds(call("any", vec![lit("int", 43)], vec![], 40)),
        BodyStmt::Other,
    ];
    let r = check_function(&cb(), &body);
    assert_eq!(r.len(), 4);
    assert!(matches!(r[0].finding, CallFinding::TooFewArguments { expected: 2, got: 1 }));
    assert_eq!(r[0].span, Span { start: 0, end: 10 });
    assert!(matches!(r[1].finding, CallFinding::TooManyArguments { expected: 2, got: 3 }));
    assert!(matches!(r[2].finding, CallFinding::KeywordArguments));
    assert_eq!(r[2].param, chars("cb"));
    match &r[3].finding {
        CallFinding::ArgumentType { position, actual, expected } => {
            assert_eq!(*position, 2);
            assert_eq!(actual, &chars("int"));
            assert_eq!(expected, &chars("str"));
        },
        _ => panic!("expected an argument type"),
    }
    assert_eq!(r[3].span, sp(35));
}

#[test]
fn calls_nested_in_arguments_are_checked() {
    let inner = call("cb", vec![], vec![], 5);
    let outer = call("print", vec![inner], vec![], 0);
    let r = check_function(&cb(), &vec![BodyStmt::Holds(outer)]);
    assert_eq!(r.len(), 1);
    assert_eq!(r[0].span, Span { start: 5, end: 15 });
    // no Callable parameters: nothing
    assert!(check_function(&vec![], &vec![BodyStmt::Holds(call("cb", vec![], vec![], 0))]).is_empty());
}
