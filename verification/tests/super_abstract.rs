use basilisk_checker::position::Span;
use basilisk_checker::super_abstract::{
    SuperAbstractCall, SuperClass, SuperExpr, SuperMethod, SuperStmt, StubStmt,
};

fn chars(s: &str) -> Vec<char> {
    s.chars().collect()
}

fn stub(name: &str, shape: Vec<StubStmt>) -> SuperMethod {
    SuperMethod { name: chars(name), is_abstract: true, shape, body: vec![] }
}

fn super_call(m: &str, a: u32) -> SuperExpr {
    SuperExpr::Call { method: Some(chars(m)), args: vec![], span: Span { start: a, end: a + 14 } }
}

fn caller(name: &str, body: Vec<SuperStmt>) -> SuperMethod {
    SuperMethod { name: chars(name), is_abstract: false, shape: vec![StubStmt::Other], body }
}

fn class(name: &str, bases: &[&str], methods: Vec<SuperMethod>) -> SuperClass {
    SuperClass { name: chars(name), bases: bases.iter().map(|b| chars(b)).collect(), methods }
}

#[test]
fn super_call_of_abstract_stub() {
    let classes = vec![
        class("PColor", &["Protocol"], vec![stub("draw", vec![StubStmt::Ellipsis]), stub("fill", vec![StubStmt::Docstring, StubStmt::Pass])]),
        class("Middle", &["PColor"], vec![]),
        class(
            "BadColor",
            &["Middle"],
            vec![caller(
                "draw",
                vec![
                    SuperStmt::Holds(super_call("draw", 100)),
                    SuperStmt::Compound(vec![vec![SuperStmt::Holds(SuperExpr::Operands(vec![
                        SuperExpr::Other,
                        super_call("fill", 200),
                    ]))]]),
                    SuperStmt::Holds(super_call("other", 300)),
                ],
            )],
        ),
    ];
    let r = SuperAbstractCall.check(&classes);
    let got: Vec<(String, u32)> = r.iter().map(|c| (c.method.iter().collect(), c.span.start)).collect();
    assert_eq!(got, vec![("draw".to_string(), 100), ("fill".to_string(), 200)]);
}

#[test]
fn implemented_or_docstring_only_methods_are_not_stubs() {
    let impl_shape = vec![StubStmt::Docstring, StubStmt::Other];
    let classes = vec![
        class("Base", &[], vec![stub("draw", impl_shape), stub("doc", vec![StubStmt::Docstring])]),
        class("Child", &["Base"], vec![caller("draw", vec![SuperStmt::Holds(super_call("draw", 5)), SuperStmt::Holds(super_call("doc", 9))])]),
    ];
    assert!(SuperAbstractCall.check(&classes).is_empty());
}

#[test]
fn cyclic_bases_are_refused_before_checking() {
    let cyclic = vec![class("A", &["B"], vec![]), class("B", &["A"], vec![stub("m", vec![StubStmt::Pass])])];
    assert!(!SuperAbstractCall.can_check(&cyclic));
    assert!(SuperAbstractCall.check_if_walks_end(&cyclic).is_none());
    let fine = vec![class("A", &[], vec![stub("m", vec![StubStmt::Pass])]), class("B", &["A"], vec![])];
    assert!(SuperAbstractCall.can_check(&fine));
    assert_eq!(SuperAbstractCall.check_if_walks_end(&fine).unwrap().len(), 0);
}

#[test]
fn cyclic_bases_without_stubs_are_never_walked() {
    let cyclic = vec![class("A", &["B"], vec![]), class("B", &["A"], vec![])];
    assert!(SuperAbstractCall.can_check(&cyclic));
    assert!(SuperAbstractCall.check(&cyclic).is_empty());
}
