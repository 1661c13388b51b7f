use basilisk_checker::initvar::{DataclassInfo, InitVarField};
use basilisk_checker::initvar_access::{
    check_initvar_attribute_access, AccessClause, AccessExpr, AccessStmt, CallVar,
};
use basilisk_checker::position::Span;

fn chars(s: &str) -> Vec<char> {
    s.chars().collect()
}

fn field(name: &str, initvar: bool) -> InitVarField {
    InitVarField { name: chars(name), is_init_var: initvar, annotation: None }
}

fn read(var: &str, attr: &str, a: u32) -> AccessExpr {
    AccessExpr::Attribute {
        value: Box::new(AccessExpr::Name { id: chars(var) }),
        attr: chars(attr),
        span: Span { start: a, end: a + 7 },
    }
}

fn classes() -> Vec<DataclassInfo> {
    vec![DataclassInfo {
        name: chars("Point"),
        is_dataclass: true,
        bases: vec![],
        attributes: vec![field("x", false), field("scale", true)],
    }]
}

#[test]
fn initvar_field_read_on_instance() {
    let vars = vec![CallVar { name: chars("p"), callee: Some(chars("Point")) }, CallVar { name: chars("q"), callee: None }];
    let body = vec![
        AccessStmt::Holds(read("p", "x", 0)),
        AccessStmt::Holds(AccessExpr::Parts(vec![AccessExpr::Name { id: chars("print") }, read("p", "scale", 10)])),
        AccessStmt::If {
            test: read("q", "scale", 20),
            body: vec![],
            clauses: vec![AccessClause { test: None, body: vec![AccessStmt::Holds(read("p", "scale", 30))] }],
        },
    ];
    let r = check_initvar_attribute_access(&classes(), &vars, &body);
    let got: Vec<(String, String, u32)> =
        r.iter().map(|x| (x.var.iter().collect(), x.field.iter().collect(), x.span.start)).collect();
    assert_eq!(got, vec![("p".to_string(), "scale".to_string(), 10), ("p".to_string(), "scale".to_string(), 30)]);
}

#[test]
fn no_instances_no_reads() {
    let body = vec![AccessStmt::Holds(read("p", "scale", 0))];
    assert!(check_initvar_attribute_access(&classes(), &vec![], &body).is_empty());
    let plain = vec![DataclassInfo { name: chars("Point"), is_dataclass: false, bases: vec![], attributes: vec![field("scale", true)] }];
    let vars = vec![CallVar { name: chars("p"), callee: Some(chars("Point")) }];
    assert!(check_initvar_attribute_access(&plain, &vars, &body).is_empty());
}
