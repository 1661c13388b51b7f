use basilisk_checker::constructor::{check_stmts_if_walks_end, walks_end};
use basilisk_checker::constructor::{
    check_constructor_call, check_stmts, CtorExpr, CtorStmt, CtorArg, CtorAttr, CtorCall, CtorCallee, CtorFacts, CtorFinding,
    CtorKeyword, CtorReport,
};
use basilisk_checker::hierarchy::HierarchyClass;
use basilisk_checker::position::Span;

fn chars(s: &str) -> Vec<char> {
    s.chars().collect()
}

fn class(name: &str, bases: &[&str]) -> HierarchyClass {
    HierarchyClass {
        name: chars(name),
        bases: bases.iter().map(|b| chars(b)).collect(),
        base_subscript_names: Vec::new(),
    }
}

fn facts(dataclass: bool, params: &[&str], attrs: &[(&str, Option<&str>, bool)]) -> CtorFacts {
    CtorFacts {
        is_dataclass: dataclass,
        is_typed_dict: false,
        generic_params: params.iter().map(|p| chars(p)).collect(),
        attributes: attrs
            .iter()
            .map(|(n, a, v)| CtorAttr {
                name: chars(n),
                has_annotation: a.is_some(),
                has_value: *v,
                annotation: a.map(chars),
            })
            .collect(),
    }
}

fn sp(a: u32, b: u32) -> Span {
    Span { start: a, end: b }
}

fn arg(t: Option<&str>, a: u32) -> CtorArg {
    CtorArg { literal_type: t.map(chars), span: sp(a, a + 1) }
}

fn kw(n: &str, t: Option<&str>, a: u32) -> CtorKeyword {
    CtorKeyword { name: Some(chars(n)), literal_type: t.map(chars), span: sp(a, a + 3) }
}

fn run(call: &CtorCall, cs: &Vec<HierarchyClass>, fs: &Vec<CtorFacts>, ms: &Vec<(Vec<char>, Vec<char>)>) -> Vec<CtorReport> {
    let mut out = Vec::new();
    check_constructor_call(call, cs, fs, ms, &mut out);
    out
}

fn named(name: &str, args: Vec<CtorArg>, kws: Vec<CtorKeyword>) -> CtorCall {
    CtorCall { callee: CtorCallee::Name { class: chars(name) }, args, keywords: kws, span: sp(0, 20) }
}

#[test]
fn class_without_init_takes_no_arguments() {
    let cs = vec![class("Plain", &[])];
    let fs = vec![facts(false, &[], &[])];
    let r = run(&named("Plain", vec![arg(Some("int"), 6)], vec![]), &cs, &fs, &vec![]);
    assert_eq!(r.len(), 1);
    assert!(matches!(r[0].finding, CtorFinding::NoInitWithArgs));
    assert_eq!(r[0].class, chars("Plain"));
    assert_eq!(r[0].span, sp(0, 20));
    // no arguments, or an __init__ of its own or of a base: nothing
    assert!(run(&named("Plain", vec![], vec![]), &cs, &fs, &vec![]).is_empty());
    let ms = vec![(chars("Plain"), chars("__init__"))];
    assert!(run(&named("Plain", vec![arg(None, 6)], vec![]), &cs, &fs, &ms).is_empty());
    let cs2 = vec![class("Base", &[]), class("Child", &["Base"])];
    let fs2 = vec![facts(false, &[], &[]), facts(false, &[], &[])];
    let ms2 = vec![(chars("Base"), chars("__new__"))];
    assert!(run(&named("Child", vec![arg(None, 6)], vec![]), &cs2, &fs2, &ms2).is_empty());
    // unknown callee: nothing
    assert!(run(&named("Missing", vec![arg(None, 6)], vec![]), &cs, &fs, &vec![]).is_empty());
}

#[test]
fn namedtuple_counts_fields_and_types() {
    let cs = vec![class("Point", &["NamedTuple"])];
    let fs = vec![facts(false, &[], &[("x", Some("int"), false), ("y", Some(" int "), true), ("doc", None, true)])];
    let too_many = run(&named("Point", vec![arg(None, 6), arg(None, 8), arg(None, 10)], vec![]), &cs, &fs, &vec![]);
    assert_eq!(too_many.len(), 1);
    assert!(matches!(too_many[0].finding, CtorFinding::TooManyArgs { accepted: 2, given: 3 }));
    let too_few = run(&named("Point", vec![], vec![]), &cs, &fs, &vec![]);
    assert!(matches!(too_few[0].finding, CtorFinding::TooFewArgs { required: 1, given: 0 }));
    let r = run(
        &named("Point", vec![arg(Some("str"), 6)], vec![kw("z", None, 9), kw("y", Some("float"), 12)]),
        &cs,
        &fs,
        &vec![],
    );
    assert_eq!(r.len(), 3);
    match &r[0].finding {
        CtorFinding::UnknownField { field } => assert_eq!(field, &chars("z")),
        _ => panic!("expected an unknown field"),
    }
    assert_eq!(r[0].span, sp(0, 20));
    match &r[1].finding {
        CtorFinding::ArgType { index, arg_type, expected, field } => {
            assert_eq!(*index, 0);
            assert_eq!(arg_type, &chars("str"));
            assert_eq!(expected, &chars("int"));
            assert_eq!(field, &chars("x"));
        },
        _ => panic!("expected an argument type"),
    }
    assert_eq!(r[1].span, sp(6, 7));
    match &r[2].finding {
        CtorFinding::KwargType { name, arg_type, expected } => {
            assert_eq!(name, &chars("y"));
            assert_eq!(arg_type, &chars("float"));
            assert_eq!(expected, &chars("int"));
        },
        _ => panic!("expected a keyword type"),
    }
    assert_eq!(r[2].span, sp(12, 15));
    // bool fits int, and an unknown literal type is not checked
    assert!(run(&named("Point", vec![arg(Some("bool"), 6), arg(None, 8)], vec![]), &cs, &fs, &vec![]).is_empty());
}

#[test]
fn dataclass_fields_include_inherited_ones() {
    let cs = vec![class("Base", &[]), class("Item", &["Base"])];
    let fs = vec![facts(false, &[], &[("id", Some("int"), false)]), facts(true, &[], &[("name", Some("str"), false)])];
    let r = run(&named("Item", vec![], vec![kw("id", None, 5), kw("name", None, 9), kw("size", None, 13)]), &cs, &fs, &vec![]);
    assert_eq!(r.len(), 1);
    match &r[0].finding {
        CtorFinding::DataclassUnknownField { field } => assert_eq!(field, &chars("size")),
        _ => panic!("expected an unknown dataclass field"),
    }
    assert_eq!(r[0].span, sp(13, 16));
    // a dataclass takes arguments without an __init__
    assert!(run(&named("Item", vec![arg(None, 5)], vec![]), &cs, &fs, &vec![]).is_empty());
}

#[test]
fn generic_namedtuple_fields_after_substitution() {
    let cs = vec![class("Property", &["NamedTuple", "Generic[T]"])];
    let fs = vec![facts(false, &["T"], &[("name", Some("str"), false), ("value", Some("T"), false)])];
    let call = CtorCall {
        callee: CtorCallee::Subscript { class: chars("Property"), type_args: vec![chars("str")] },
        args: vec![arg(Some("str"), 14), arg(Some("float"), 18)],
        keywords: vec![],
        span: sp(0, 22),
    };
    let r = run(&call, &cs, &fs, &vec![]);
    assert_eq!(r.len(), 1);
    match &r[0].finding {
        CtorFinding::GenericArgType { index, arg_type, expected, field } => {
            assert_eq!(*index, 1);
            assert_eq!(arg_type, &chars("float"));
            assert_eq!(expected, &chars("str"));
            assert_eq!(field, &chars("value"));
        },
        _ => panic!("expected a generic argument type"),
    }
    assert_eq!(r[0].span, sp(18, 19));
    let int_call = CtorCall {
        callee: CtorCallee::Subscript { class: chars("Property"), type_args: vec![chars("float")] },
        args: vec![arg(Some("str"), 14), arg(Some("int"), 18)],
        keywords: vec![],
        span: sp(0, 22),
    };
    assert!(run(&int_call, &cs, &fs, &vec![]).is_empty());
}

#[test]
fn calls_among_arguments_come_first() {
    let cs = vec![class("Plain", &[])];
    let fs = vec![facts(false, &[], &[])];
    let inner = named("Plain", vec![arg(Some("int"), 12)], vec![]);
    let mut outer = named("Plain", vec![arg(None, 6)], vec![]);
    outer.span = sp(0, 30);
    let stmt = CtorStmt::Bodies(vec![vec![CtorStmt::Holds(CtorExpr::Call(outer, vec![CtorExpr::Call(inner, vec![]), CtorExpr::Other]))], vec![CtorStmt::Other]]);
    let mut out = Vec::new();
    check_stmts(&vec![stmt, CtorStmt::Holds(CtorExpr::Other)], &cs, &fs, &vec![], &mut out);
    assert_eq!(out.len(), 2);
    assert_eq!(out[0].span, sp(0, 20));
    assert_eq!(out[1].span, sp(0, 30));
}

#[test]
fn cyclic_hierarchies_are_refused_before_checking() {
    let cyclic = vec![class("A", &["B"]), class("B", &["A"])];
    let fs = vec![facts(false, &[], &[]), facts(false, &[], &[])];
    assert!(!walks_end(&cyclic));
    assert!(check_stmts_if_walks_end(&vec![], &cyclic, &fs, &vec![]).is_none());
    let fine = vec![class("A", &[]), class("B", &["A"])];
    assert!(walks_end(&fine));
    let stmt = CtorStmt::Holds(CtorExpr::Call(named("A", vec![arg(None, 2)], vec![]), vec![]));
    assert_eq!(check_stmts_if_walks_end(&vec![stmt], &fine, &fs, &vec![]).unwrap().len(), 1);
}
