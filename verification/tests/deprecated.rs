use basilisk_checker::ast::{Expr, ImportAlias, Operator, Stmt};
use basilisk_checker::deprecated::{
    is_deprecated_decorator, op_to_dunder, DeprecatedKind, DeprecatedUsage, Report,
};
use basilisk_checker::position::Span;

fn chars(s: &str) -> Vec<char> {
    s.chars().collect()
}

fn text(v: &[char]) -> String {
    v.iter().collect()
}

fn sp(a: u32, b: u32) -> Span {
    Span { start: a, end: b }
}

fn name(s: &str, a: u32) -> Expr {
    Expr::Name { id: chars(s), span: sp(a, a + s.len() as u32) }
}

fn call(func: Expr, args: Vec<Expr>, a: u32, b: u32) -> Expr {
    Expr::Call { func: Box::new(func), args, span: sp(a, b) }
}

fn attr(value: Expr, a: &str, s: u32, e: u32) -> Expr {
    Expr::Attribute { value: Box::new(value), attr: chars(a), span: sp(s, e) }
}

fn lit(s: &str) -> Expr {
    Expr::StringLiteral { text: chars(s) }
}

fn deprecated_with(msg: &str) -> Expr {
    call(name("deprecated", 0), vec![lit(msg)], 0, 0)
}

fn def(n: &str, decorators: Vec<Expr>, body: Vec<Stmt>, a: u32, b: u32) -> Stmt {
    Stmt::FunctionDef { name: chars(n), decorators, params: vec![], body, span: sp(a, b) }
}

fn alias(n: &str) -> ImportAlias {
    ImportAlias { name: chars(n), asname: None }
}

fn show(r: &Report) -> (u32, u32, DeprecatedKind, String, Option<String>) {
    (r.span.start, r.span.end, r.kind, text(&r.name), r.message.as_ref().map(|m| text(m)))
}

#[test]
fn deprecated_function_call_is_reported() {
    // from typing_extensions import deprecated
    // @deprecated("Use new_func instead")
    // def old_func() -> None: ...
    // old_func()
    let body = vec![
        Stmt::ImportFrom {
            module: Some(chars("typing_extensions")),
            names: vec![alias("deprecated")],
            span: sp(0, 40),
        },
        def("old_func", vec![deprecated_with("Use new_func instead")], vec![], 41, 110),
        Stmt::Expr { value: call(name("old_func", 111), vec![], 111, 121) },
    ];
    let r = DeprecatedUsage::check(&body, &vec![], true);
    assert_eq!(r.len(), 1);
    assert_eq!(
        show(&r[0]),
        (111, 121, DeprecatedKind::Function, "old_func".to_string(), Some("Use new_func instead".to_string()))
    );
}

#[test]
fn bare_reference_and_plain_decorator() {
    // @deprecated
    // def f(): ...
    // g = f
    let body = vec![
        def("f", vec![name("deprecated", 0)], vec![], 0, 20),
        Stmt::Assign { targets: vec![name("g", 21)], value: name("f", 25) },
    ];
    let r = DeprecatedUsage::check(&body, &vec![], true);
    assert_eq!(r.len(), 1);
    assert_eq!(show(&r[0]), (25, 26, DeprecatedKind::Function, "f".to_string(), None));
}

#[test]
fn dunder_and_setter_on_inferred_instance() {
    // class Spam:
    //     @deprecated("no add")
    //     def __add__(self, other): ...
    //     @shape.setter
    //     @deprecated("no setter")
    //     def shape(self, v): ...
    // spam = Spam()
    // spam + 1
    // spam.shape = "x"
    // spam += 2
    let class_body = vec![
        def("__add__", vec![deprecated_with("no add")], vec![], 10, 50),
        def(
            "shape",
            vec![attr(name("shape", 0), "setter", 0, 0), deprecated_with("no setter")],
            vec![],
            51,
            90,
        ),
    ];
    let body = vec![
        Stmt::ClassDef { name: chars("Spam"), decorators: vec![], body: class_body, span: sp(0, 90) },
        Stmt::Assign { targets: vec![name("spam", 91)], value: call(name("Spam", 98), vec![], 98, 104) },
        Stmt::Expr {
            value: Expr::BinOp {
                left: Box::new(name("spam", 105)),
                op: Operator::Add,
                right: Box::new(Expr::Other),
                span: sp(105, 113),
            },
        },
        Stmt::Assign { targets: vec![attr(name("spam", 114), "shape", 114, 124)], value: lit("x") },
        Stmt::AugAssign {
            target: name("spam", 131),
            op: Operator::Add,
            value: Expr::Other,
            span: sp(131, 140),
        },
    ];
    let r = DeprecatedUsage::check(&body, &vec![], true);
    let got: Vec<_> = r.iter().map(show).collect();
    assert_eq!(
        got,
        vec![
            (105, 113, DeprecatedKind::Method, "Spam.__add__".to_string(), Some("no add".to_string())),
            (114, 124, DeprecatedKind::PropertySetter, "Spam.shape".to_string(), Some("no setter".to_string())),
            (131, 140, DeprecatedKind::Method, "Spam.__add__".to_string(), Some("no add".to_string())),
        ]
    );
}

#[test]
fn imports_from_a_sibling_module() {
    // library.py:
    //     @deprecated("gone")
    //     def ham(): ...
    // main.py:
    //     from library import ham
    //     import library
    //     ham()
    //     library.ham()
    let library = vec![def("ham", vec![deprecated_with("gone")], vec![], 0, 30)];
    let siblings = vec![(chars("library"), library)];
    let body = vec![
        Stmt::ImportFrom { module: Some(chars("library")), names: vec![alias("ham")], span: sp(0, 23) },
        Stmt::Import { names: vec![alias("library")] },
        Stmt::Expr { value: call(name("ham", 39), vec![], 39, 44) },
        Stmt::Expr { value: call(attr(name("library", 45), "ham", 45, 56), vec![], 45, 58) },
    ];
    let r = DeprecatedUsage::check(&body, &siblings, true);
    let got: Vec<_> = r.iter().map(show).collect();
    assert_eq!(
        got,
        vec![
            (0, 23, DeprecatedKind::Function, "ham".to_string(), Some("gone".to_string())),
            (39, 44, DeprecatedKind::Function, "ham".to_string(), Some("gone".to_string())),
            (45, 58, DeprecatedKind::Function, "ham".to_string(), Some("gone".to_string())),
        ]
    );
    // Outside a directory no sibling is consulted.
    assert!(DeprecatedUsage::check(&body, &siblings, false).is_empty());
}

#[test]
fn property_read_and_method_call_of_local_class() {
    // class C:
    //     @property
    //     @deprecated("old prop")
    //     def size(self): ...
    //     @deprecated("old method")
    //     def run(self): ...
    // c = C()
    // c.size
    // c.run()
    let class_body = vec![
        def("size", vec![name("property", 0), deprecated_with("old prop")], vec![], 5, 40),
        def("run", vec![deprecated_with("old method")], vec![], 41, 80),
    ];
    let body = vec![
        Stmt::ClassDef { name: chars("C"), decorators: vec![], body: class_body, span: sp(0, 80) },
        Stmt::Assign { targets: vec![name("c", 81)], value: call(name("C", 85), vec![], 85, 88) },
        Stmt::Expr { value: attr(name("c", 89), "size", 89, 95) },
        Stmt::Expr { value: call(attr(name("c", 96), "run", 96, 101), vec![], 96, 103) },
    ];
    let r = DeprecatedUsage::check(&body, &vec![], true);
    let got: Vec<_> = r.iter().map(show).collect();
    assert_eq!(
        got,
        vec![
            (89, 95, DeprecatedKind::Property, "C.size".to_string(), Some("old prop".to_string())),
            (96, 103, DeprecatedKind::Method, "run".to_string(), Some("old method".to_string())),
        ]
    );
}

#[test]
fn deprecated_class_and_nested_uses() {
    // @typing.deprecated
    // class Old: ...
    // if x:
    //     for y in [Old()]: ...
    let body = vec![
        Stmt::ClassDef {
            name: chars("Old"),
            decorators: vec![attr(name("typing", 1), "deprecated", 1, 18)],
            body: vec![],
            span: sp(0, 30),
        },
        Stmt::If {
            test: name("x", 34),
            body: vec![Stmt::For {
                iter: Expr::List { elts: vec![call(name("Old", 50), vec![], 50, 55)] },
                body: vec![],
            }],
            clauses: vec![],
        },
    ];
    let r = DeprecatedUsage::check(&body, &vec![], true);
    let got: Vec<_> = r.iter().map(show).collect();
    assert_eq!(got, vec![(50, 55, DeprecatedKind::Class, "Old".to_string(), None)]);
}

#[test]
fn decorator_recognition() {
    assert_eq!(
        is_deprecated_decorator(&deprecated_with("m")).map(|m| m.map(|t| text(&t))),
        Some(Some("m".to_string()))
    );
    assert_eq!(is_deprecated_decorator(&name("deprecated", 0)).map(|m| m.is_some()), Some(false));
    assert!(is_deprecated_decorator(&attr(name("other", 0), "deprecated", 0, 0)).is_none());
    assert!(is_deprecated_decorator(&name("overload", 0)).is_none());
    assert_eq!(op_to_dunder(Operator::Div), "__truediv__");
    assert_eq!(op_to_dunder(Operator::MatMult), "__matmul__");
}
