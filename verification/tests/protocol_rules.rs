use basilisk_checker::ast::{Expr, ParamKind, Parameter, Stmt};
use basilisk_checker::conformance::{inheritance_is_acyclic, walks_end};
use basilisk_checker::conformance::{
    class_inherits_protocol, collect_protocol_required_methods, is_nominal_subclass,
    known_protocol_methods, readwrite_property_members, readwrite_property_violation, ClassInfo,
    ConformanceFinding, ProtocolAssignmentConformance, WriteReason,
};
use basilisk_checker::module::VarSite;
use basilisk_checker::position::Span;
use basilisk_checker::protocol_members::{
    find_class_def, ProtocolClassInfo, ProtocolNewSelfAttrViolation,
};

fn chars(s: &str) -> Vec<char> {
    s.chars().collect()
}

fn text(v: &[char]) -> String {
    v.iter().collect()
}

fn names(v: &[&str]) -> Vec<Vec<char>> {
    v.iter().map(|s| chars(s)).collect()
}

fn sp(a: u32, b: u32) -> Span {
    Span { start: a, end: b }
}

fn self_attr(obj: &str, attr: &str, at: u32) -> Expr {
    Expr::Attribute {
        value: Box::new(Expr::Name { id: chars(obj), span: sp(at, at + obj.len() as u32) }),
        attr: chars(attr),
        span: sp(at, at + (obj.len() + 1 + attr.len()) as u32),
    }
}

fn assign(target: Expr) -> Stmt {
    Stmt::Assign { targets: vec![target], value: Expr::Other }
}

fn method(name: &str, params: Vec<Parameter>, body: Vec<Stmt>) -> Stmt {
    Stmt::FunctionDef { name: chars(name), decorators: vec![], params, body, span: sp(0, 1) }
}

fn param(name: &str, kind: ParamKind) -> Parameter {
    Parameter { name: chars(name), kind, annotation: None }
}

#[test]
fn protocol_init_assigns_undeclared_member() {
    // class MyProto(Protocol):
    //     x: int
    //     def __init__(self) -> None:
    //         self.x = 1
    //         self.y = 0        # undeclared
    //         if cond:
    //             self.z += 1   # undeclared
    //         else:
    //             self.run = 2  # a method: declared
    //     def run(self): self.w = 3   # not __init__/__new__
    let init = method(
        "__init__",
        vec![param("self", ParamKind::Regular)],
        vec![
            assign(self_attr("self", "x", 100)),
            assign(self_attr("self", "y", 120)),
            Stmt::If {
                test: Expr::Other,
                body: vec![Stmt::AugAssign {
                    target: self_attr("self", "z", 140),
                    op: basilisk_checker::ast::Operator::Add,
                    value: Expr::Other,
                    span: sp(140, 150),
                }],
                clauses: vec![vec![assign(self_attr("self", "run", 160))]],
            },
        ],
    );
    let run = method("run", vec![param("self", ParamKind::Regular)], vec![assign(self_attr("self", "w", 200))]);
    let class = Stmt::ClassDef { name: chars("MyProto"), decorators: vec![], body: vec![init, run], span: sp(0, 300) };
    let info = ProtocolClassInfo {
        name: chars("MyProto"),
        bases: names(&["Protocol"]),
        attributes: names(&["x"]),
        method_names: names(&["__init__", "run"]),
    };
    let r = ProtocolNewSelfAttrViolation.check(&vec![info], &vec![class]);
    assert_eq!(r.len(), 2);
    assert_eq!(text(&r[0].attr), "y");
    assert_eq!((r[0].span.start, r[0].span.end), (120, 126));
    assert_eq!(text(&r[1].attr), "z");
}

#[test]
fn protocol_new_uses_first_parameter_and_skips_other_classes() {
    // def __new__(cls, /): cls.v = 1 -- receiver is the positional-only `cls`
    let new = method("__new__", vec![param("cls", ParamKind::PositionalOnly)], vec![assign(self_attr("cls", "v", 10))]);
    let other = method("__init__", vec![param("me", ParamKind::Regular)], vec![assign(self_attr("self", "q", 50))]);
    let p = Stmt::ClassDef { name: chars("P"), decorators: vec![], body: vec![new, other], span: sp(0, 100) };
    let plain = Stmt::ClassDef {
        name: chars("Plain"),
        decorators: vec![],
        body: vec![method("__init__", vec![param("self", ParamKind::Regular)], vec![assign(self_attr("self", "a", 150))])],
        span: sp(100, 200),
    };
    let infos = vec![
        ProtocolClassInfo { name: chars("P"), bases: names(&["Protocol"]), attributes: vec![], method_names: vec![] },
        ProtocolClassInfo { name: chars("Plain"), bases: names(&["object"]), attributes: vec![], method_names: vec![] },
    ];
    let body = vec![p, plain];
    let r = ProtocolNewSelfAttrViolation.check(&infos, &body);
    assert_eq!(r.len(), 1);
    assert_eq!(text(&r[0].attr), "v");
    assert_eq!(find_class_def(&body, &chars("Plain")), Some(1));
    assert_eq!(find_class_def(&body, &chars("Nope")), None);
}

fn class(name: &str, bases: &[&str], methods: &[&str], attrs: &[&str]) -> ClassInfo {
    ClassInfo {
        name: chars(name),
        bases: names(bases),
        attributes: names(attrs),
        method_names: names(methods),
        method_decorators: vec![],
        is_dataclass_frozen: false,
    }
}

fn var(name: &str, ann: &str, rhs: &str, at: u32) -> VarSite {
    VarSite {
        name: chars(name),
        name_span: sp(at, at + name.len() as u32),
        annotation: Some(chars(ann)),
        rhs: Some(chars(rhs)),
    }
}

#[test]
fn protocol_assignment_conformance() {
    // class P(Protocol): def method(self) -> None: ...
    // class NotP(P): def method(self) -> None: pass
    // class C: pass
    // class D(P): ...
    // x: P = C()
    // y: NotP = C()
    // z: P = D()
    let classes = vec![
        class("P", &["Protocol"], &["method"], &[]),
        class("NotP", &["P"], &["method"], &[]),
        class("C", &[], &[], &[]),
        class("D", &["P"], &[], &[]),
    ];
    let vars = vec![var("x", "P", "C()", 10), var("y", " NotP ", " C( ) ", 20), var("z", "P", "D()", 30)];
    let r = ProtocolAssignmentConformance.check(&classes, &vars);
    assert_eq!(r.len(), 2);
    match &r[0].finding {
        ConformanceFinding::MissingMembers { rhs_class, protocol, missing } => {
            assert_eq!((text(rhs_class), text(protocol)), ("C".to_string(), "P".to_string()));
            assert_eq!(missing.iter().map(|m| text(m)).collect::<Vec<_>>(), vec!["method"]);
        }
        _ => panic!("expected missing members"),
    }
    assert_eq!((r[0].span.start, r[0].span.end), (10, 11));
    match &r[1].finding {
        ConformanceFinding::NotAProtocol { rhs_class, annotation } => {
            assert_eq!((text(rhs_class), text(annotation)), ("C".to_string(), "NotP".to_string()));
        }
        _ => panic!("expected a non-protocol annotation"),
    }
}

#[test]
fn protocol_required_methods_include_bases() {
    let classes = vec![
        class("Base", &["Protocol"], &["a", "b"], &[]),
        class("P", &["Base", "Sized", "Protocol"], &["b", "c"], &[]),
        class("Impl", &[], &["a", "__len__"], &["c"]),
    ];
    let req = collect_protocol_required_methods(&classes[1], &classes);
    assert_eq!(req.iter().map(|m| text(m)).collect::<Vec<_>>(), vec!["b", "c", "a", "__len__"]);
    let vars = vec![var("v", "P", "Impl()", 0)];
    let r = ProtocolAssignmentConformance.check(&classes, &vars);
    assert_eq!(r.len(), 1);
    match &r[0].finding {
        ConformanceFinding::MissingMembers { missing, .. } => {
            assert_eq!(missing.iter().map(|m| text(m)).collect::<Vec<_>>(), vec!["b"]);
        }
        _ => panic!("expected missing members"),
    }
}

#[test]
fn protocol_writable_property_members() {
    let mut p = class("P", &["Protocol"], &["name", "name"], &[]);
    p.method_decorators = vec![(chars("name"), names(&["property"])), (chars("name"), names(&["setter"]))];
    let mut ro = class("RO", &[], &["name"], &[]);
    ro.method_decorators = vec![(chars("name"), names(&["property"]))];
    let mut frozen = class("F", &[], &[], &["name"]);
    frozen.is_dataclass_frozen = true;
    let nt = class("N", &["NamedTuple"], &[], &["name"]);
    let ok = class("W", &[], &[], &["name"]);
    assert_eq!(readwrite_property_members(&p).iter().map(|m| text(m)).collect::<Vec<_>>(), vec!["name"]);
    assert_eq!(readwrite_property_violation(&ro, &chars("name")), Some(WriteReason::ReadOnlyProperty));
    assert_eq!(readwrite_property_violation(&frozen, &chars("name")), Some(WriteReason::FrozenDataclassField));
    assert_eq!(readwrite_property_violation(&nt, &chars("name")), Some(WriteReason::NamedTupleField));
    assert_eq!(readwrite_property_violation(&ok, &chars("name")), None);
    assert_eq!(readwrite_property_violation(&ok, &chars("other")), None);
    let classes = vec![p, ro, ok];
    let r = ProtocolAssignmentConformance.check(&classes, &vec![var("a", "P", "RO()", 0), var("b", "P", "W()", 5)]);
    assert_eq!(r.len(), 1);
    match &r[0].finding {
        ConformanceFinding::NotWritable { rhs_class, member, reason, .. } => {
            assert_eq!((text(rhs_class), text(member)), ("RO".to_string(), "name".to_string()));
            assert_eq!(*reason, WriteReason::ReadOnlyProperty);
        }
        _ => panic!("expected a writability finding"),
    }
}

#[test]
fn protocol_class_helpers() {
    let classes = vec![
        class("A", &["B"], &[], &[]),
        class("B", &["C"], &[], &[]),
        class("C", &["Iterable"], &[], &[]),
    ];
    assert!(is_nominal_subclass(&chars("A"), &chars("C"), &classes));
    assert!(is_nominal_subclass(&chars("A"), &chars("Iterable"), &classes));
    assert!(!is_nominal_subclass(&chars("C"), &chars("A"), &classes));
    assert!(!is_nominal_subclass(&chars("X"), &chars("A"), &classes));
    assert!(class_inherits_protocol(&chars("C"), &classes));
    assert!(!class_inherits_protocol(&chars("A"), &classes));
    let it = known_protocol_methods(&chars("Iterator")).unwrap();
    assert_eq!(it.iter().map(|m| text(m)).collect::<Vec<_>>(), vec!["__iter__", "__next__"]);
    assert!(known_protocol_methods(&chars("Sequence")).is_none());
}

#[test]
fn cyclic_inheritance_is_refused_before_checking() {
    let cyclic = vec![class("A", &["B"], &[], &[]), class("B", &["A"], &[], &[])];
    assert!(!inheritance_is_acyclic(&cyclic));
    let walked = vec![var("a", "P", "A()", 0)];
    assert!(!walks_end(&cyclic, &walked));
    assert!(ProtocolAssignmentConformance.check_if_walks_end(&cyclic, &walked).is_none());
    // No variable makes the rule walk the cycle.
    let unwalked = vec![var("b", "A", "A()", 10)];
    assert!(walks_end(&cyclic, &unwalked));
    assert!(ProtocolAssignmentConformance.check_if_walks_end(&cyclic, &unwalked).unwrap().is_empty());
    let fine = vec![class("A", &[], &[], &[]), class("B", &["A"], &[], &[])];
    assert!(inheritance_is_acyclic(&fine));
    assert!(ProtocolAssignmentConformance.check_if_walks_end(&fine, &walked).unwrap().is_empty());
}
