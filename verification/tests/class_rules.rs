use basilisk_checker::abstract_super::{
    is_abstract_method, MethodInfo, ReturnSite, SuperCallOnAbstractProtocolMethod,
};
use basilisk_checker::alias_cycles::{has_cycle, CyclicalTypeAliasReference, TypeAliasDef};
use basilisk_checker::conformance::ClassInfo;
use basilisk_checker::init_self::{check_class_scoped_typevars_in_self, GenericClass, InitSite};
use basilisk_checker::initvar::{
    check_post_init_signatures, DataclassInfo, InitVarField, PostInitIssue,
};
use basilisk_checker::module::{FunctionSite, ParamSite};
use basilisk_checker::position::Span;

fn chars(s: &str) -> Vec<char> {
    s.chars().collect()
}

fn text(v: &[char]) -> String {
    v.iter().collect()
}

fn names(v: &[&str]) -> Vec<Vec<char>> {
    v.iter().map(|s| chars(s)).collect()
}

fn sp(a: u32, b: u32) -> Span {
    Span { start: a, end: b }
}

fn alias(name: &str, refs: &[&str], at: u32) -> TypeAliasDef {
    TypeAliasDef { name: chars(name), span: sp(at, at + 5), rhs_string_refs: names(refs) }
}

#[test]
fn cyclical_type_aliases() {
    // RecursiveUnion: TypeAlias = Union["RecursiveUnion", int]
    // A: TypeAlias = Union["B", int]
    // B: TypeAlias = Union["A", str]
    // C: TypeAlias = Union["A", "Missing"]      -- reaches the A/B cycle, is not on it
    // D: TypeAlias = int
    let aliases = vec![
        alias("RecursiveUnion", &["RecursiveUnion"], 0),
        alias("A", &["B"], 10),
        alias("B", &["A"], 20),
        alias("C", &["A", "Missing"], 30),
        alias("D", &[], 40),
    ];
    let r = CyclicalTypeAliasReference.check(&aliases);
    assert_eq!(r.iter().map(|c| text(&c.name)).collect::<Vec<_>>(), vec!["RecursiveUnion", "A", "B"]);
    assert_eq!((r[1].span.start, r[1].span.end), (10, 15));
}

#[test]
fn has_cycle_walks_long_chains() {
    let g = vec![
        (chars("a"), names(&["b", "x"])),
        (chars("b"), names(&["c"])),
        (chars("c"), names(&["d", "b"])),
        (chars("d"), names(&["a"])),
        (chars("e"), names(&["a"])),
    ];
    assert!(has_cycle(&chars("a"), &g));
    assert!(has_cycle(&chars("b"), &g));
    assert!(!has_cycle(&chars("e"), &g));
    assert!(!has_cycle(&chars("x"), &g));
    let dag = vec![(chars("p"), names(&["q", "r"])), (chars("q"), names(&["r"])), (chars("r"), names(&["s"]))];
    assert!(!has_cycle(&chars("p"), &dag));
}

fn field(name: &str, init_var: bool, ann: &str) -> InitVarField {
    InitVarField { name: chars(name), is_init_var: init_var, annotation: Some(chars(ann)) }
}

fn param(name: &str, ann: Option<&str>, at: u32) -> ParamSite {
    ParamSite { name: chars(name), name_span: sp(at, at + name.len() as u32), annotation: ann.map(chars) }
}

fn method(class: &str, name: &str, params: Vec<ParamSite>, at: u32) -> FunctionSite {
    FunctionSite {
        name: chars(name),
        name_span: sp(at, at + name.len() as u32),
        class_name: Some(chars(class)),
        decorators: vec![],
        params,
        vararg: None,
        kwarg: None,
        return_annotation: None,
    }
}

#[test]
fn post_init_signatures_against_initvars() {
    // @dataclass class A: x: int; y: InitVar[int]; z: InitVar[str]
    //     def __post_init__(self, y: int, z: bytes)
    // @dataclass class B: y: InitVar[int]; def __post_init__(self)
    // @dataclass class C(A[int]): w: InitVar[int]; def __post_init__(self)   -- parent has InitVars
    let classes = vec![
        DataclassInfo {
            name: chars("A"),
            is_dataclass: true,
            bases: vec![],
            attributes: vec![field("x", false, "int"), field("y", true, "InitVar[int]"), field("z", true, " InitVar[ str ]")],
        },
        DataclassInfo { name: chars("B"), is_dataclass: true, bases: vec![], attributes: vec![field("y", true, "InitVar[int]")] },
        DataclassInfo { name: chars("C"), is_dataclass: true, bases: names(&["A[int]"]), attributes: vec![field("w", true, "InitVar[int]")] },
    ];
    let functions = vec![
        method("A", "__post_init__", vec![param("self", None, 100), param("y", Some("int"), 110), param("z", Some(" bytes "), 120)], 90),
        method("B", "__post_init__", vec![param("self", None, 200)], 190),
        method("C", "__post_init__", vec![param("self", None, 300)], 290),
    ];
    let r = check_post_init_signatures(&classes, &functions);
    assert_eq!(r.len(), 2);
    match &r[0].issue {
        PostInitIssue::ParamType { param, param_type, field, inner } => {
            assert_eq!((text(param), text(param_type), text(field), text(inner)), ("z".into(), "bytes".into(), "z".into(), "str".into()));
        }
        _ => panic!("expected a parameter type issue"),
    }
    assert_eq!((r[0].span.start, r[0].span.end), (120, 121));
    match &r[1].issue {
        PostInitIssue::ParamCount { class, params, initvars } => {
            assert_eq!((text(class), *params, *initvars), ("B".to_string(), 0, 1));
        }
        _ => panic!("expected a parameter count issue"),
    }
    assert_eq!((r[1].span.start, r[1].span.end), (190, 203));
}

fn class(name: &str, bases: &[&str], methods: &[&str]) -> ClassInfo {
    ClassInfo {
        name: chars(name),
        bases: names(bases),
        attributes: vec![],
        method_names: names(methods),
        method_decorators: vec![],
        is_dataclass_frozen: false,
    }
}

fn func(class: &str, name: &str, stub: bool, returns: Vec<ReturnSite>) -> MethodInfo {
    MethodInfo { class_name: Some(chars(class)), name: chars(name), is_stub_body: stub, return_stmts: returns }
}

#[test]
fn super_calls_to_abstract_protocol_methods() {
    // class P(Protocol):
    //     @abstractmethod
    //     def m(self) -> int: ...
    //     def n(self) -> int: return 1
    // class Impl(P):
    //     def m(self) -> int: return super().m()   # E
    //     def n(self) -> int: return super().n()
    let mut p = class("P", &["Protocol"], &["m", "n"]);
    p.method_decorators = vec![(chars("m"), names(&["abc.abstractmethod"])), (chars("n"), vec![])];
    let imp = class("Impl", &["P"], &["m", "n"]);
    let ret = |t: &str, at: u32| ReturnSite { value_is_call: true, span: sp(at, at + 10), text: Some(chars(t)) };
    let functions = vec![
        func("P", "m", true, vec![]),
        func("P", "n", false, vec![]),
        func("Impl", "m", false, vec![ret("return super().m()", 100)]),
        func("Impl", "n", false, vec![ret("return super().n()", 200)]),
    ];
    assert!(is_abstract_method(&p, &chars("m")));
    assert!(!is_abstract_method(&p, &chars("n")));
    let r = SuperCallOnAbstractProtocolMethod.check(&vec![p, imp], &functions);
    assert_eq!(r.len(), 1);
    assert_eq!((text(&r[0].class), text(&r[0].method), text(&r[0].base)), ("Impl".into(), "m".into(), "P".into()));
    assert_eq!((r[0].span.start, r[0].span.end), (100, 110));
}

#[test]
fn class_scoped_typevars_in_self_annotation() {
    // T1 = TypeVar("T1"); T2 = TypeVar("T2")
    // class Class8(Generic[T1, T2]):
    //     def __init__(self: "Class8[T2, T1]", ...)   # E
    // class Ok(Generic[T1, T2]):
    //     def __init__(self: Ok[T1, T2])
    let classes = vec![
        GenericClass { name: chars("Class8"), generic_params: names(&["T1", "T2"]) },
        GenericClass { name: chars("Ok"), generic_params: names(&["T1", "T2"]) },
    ];
    let init = |class: &str, ann: &str, at: u32| InitSite {
        class_name: Some(chars(class)),
        name: chars("__init__"),
        decorators: vec![],
        self_annotation: Some(chars(ann)),
        def_span: sp(at, at + 3),
    };
    let functions = vec![init("Class8", " \"Class8[T2, T1]\" ", 10), init("Ok", "Ok[T1, T2]", 50)];
    let r = check_class_scoped_typevars_in_self(&classes, &functions, &names(&["T1", "T2"]));
    assert_eq!(r.len(), 1);
    assert_eq!(text(&r[0].class), "Class8");
    assert_eq!(r[0].args.iter().map(|a| text(a)).collect::<Vec<_>>(), vec!["T2", "T1"]);
    assert_eq!(r[0].params.iter().map(|a| text(a)).collect::<Vec<_>>(), vec!["T1", "T2"]);
    assert_eq!((r[0].span.start, r[0].span.end), (10, 13));
    // Not module-level TypeVars: no finding.
    assert!(check_class_scoped_typevars_in_self(&classes, &functions, &names(&["T1"])).is_empty());
}
