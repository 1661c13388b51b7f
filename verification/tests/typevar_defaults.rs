use basilisk_checker::literal_assign::ParamAnnotation;
use basilisk_checker::position::Span;
use basilisk_checker::typevar_defaults::{
    find_matching_bracket, literal_type_mismatch, parse_typevar_info_from_source, parses_as_float,
    resolve_generic_params, DefaultIssue, GenericClass, InitMethod, LiteralMismatch,
    TypeVarDefaultReferential, TypeVarSite,
};

fn chars(s: &str) -> Vec<char> {
    s.chars().collect()
}

fn text(v: &[char]) -> String {
    v.iter().collect()
}

fn site(name: &str, start: u32, end: u32) -> TypeVarSite {
    TypeVarSite { name: chars(name), span: Span { start, end } }
}

#[test]
fn typevar_default_order_scope_and_constraints() {
    let src = "S1 = TypeVar(\"S1\")\nS2 = TypeVar(\"S2\", default=S1)\nclass Foo3(Generic[S1]):\n    class Bar2(Generic[S2]): ...\nY1 = TypeVar(\"Y1\", bound=int)\nInvalid2 = TypeVar(\"Invalid2\", float, str, default=Y1)\nclass Bad(Generic[S2, S1]): ...\n";
    let sites = vec![site("S1", 5, 18), site("S2", 24, 49), site("Y1", 113, 137), site("Invalid2", 149, 192)];
    let classes = vec![
        GenericClass { name: chars("Foo3"), name_span: Span { start: 56, end: 60 }, generic_params: vec![chars("S1")] },
        GenericClass { name: chars("Bad"), name_span: Span { start: 199, end: 202 }, generic_params: vec![chars("S2"), chars("S1")] },
    ];
    let diags = TypeVarDefaultReferential.check(&chars(src), &sites, &classes, &Vec::new());
    assert_eq!(diags.len(), 3);
    match &diags[0].issue {
        DefaultIssue::Misordered { param, default, class_name } => {
            assert_eq!((text(param), text(default), text(class_name)), ("S2".into(), "S1".into(), "Bad".into()));
        }
        _ => panic!("expected an order finding"),
    }
    assert_eq!((diags[0].span.start, diags[0].span.end), (199, 202));
    match &diags[1].issue {
        DefaultIssue::OuterScope { param, default } => {
            assert_eq!((text(param), text(default)), ("S2".into(), "S1".into()));
        }
        _ => panic!("expected an enclosing-scope finding"),
    }
    assert_eq!((diags[1].span.start, diags[1].span.end), (75, 107));
    match &diags[2].issue {
        DefaultIssue::BoundVsConstraints { name, default, default_bound, constraints } => {
            assert_eq!(text(name), "Invalid2");
            assert_eq!(text(default), "Y1");
            assert_eq!(text(default_bound), "int");
            let cs: Vec<String> = constraints.iter().map(|c| text(c)).collect();
            assert_eq!(cs, vec!["float", "str"]);
        }
        _ => panic!("expected a bound finding"),
    }
    assert_eq!((diags[2].span.start, diags[2].span.end), (149, 192));
}

#[test]
fn typevar_default_resolves_in_subscripted_call() {
    let src = "T = TypeVar(\"T\")\nU = TypeVar(\"U\", default=T)\nclass Foo(Generic[T, U]):\n    def __init__(self, a: T, b: U): ...\nFoo[int](1, \"\")\n";
    let sites = vec![site("T", 4, 16), site("U", 21, 44)];
    let classes = vec![GenericClass {
        name: chars("Foo"),
        name_span: Span { start: 51, end: 54 },
        generic_params: vec![chars("T"), chars("U")],
    }];
    let inits = vec![InitMethod {
        class_name: chars("Foo"),
        params: vec![
            ParamAnnotation { name: chars("self"), annotation: None },
            ParamAnnotation { name: chars("a"), annotation: Some(chars("T")) },
            ParamAnnotation { name: chars("b"), annotation: Some(chars("U")) },
        ],
    }];
    let diags = TypeVarDefaultReferential.check(&chars(src), &sites, &classes, &inits);
    assert_eq!(diags.len(), 1);
    match &diags[0].issue {
        DefaultIssue::LiteralArg { class_name, type_args, param, expected, mismatch } => {
            assert_eq!(text(class_name), "Foo");
            assert_eq!(text(type_args), "int");
            assert_eq!(text(param), "b");
            assert_eq!(text(expected), "int");
            assert_eq!(*mismatch, LiteralMismatch::Str);
        }
        _ => panic!("expected a literal argument finding"),
    }
    assert_eq!((diags[0].span.start, diags[0].span.end), (111, 126));
}

#[test]
fn typevar_info_parsing() {
    let names = vec![chars("A"), chars("B")];
    let infos = parse_typevar_info_from_source(
        &chars("X = TypeVar(\"X\", int, str, bound=float, default=\"A\")\nY == TypeVar(\"Y\")\nZ = TypeVar(\"Z\", default=C)\n"),
        &names,
    );
    assert_eq!(infos.len(), 2);
    assert_eq!(text(&infos[0].name), "X");
    assert_eq!(infos[0].default_typevar_name.as_ref().map(|v| text(v)), Some("A".to_string()));
    assert_eq!(infos[0].bound_name.as_ref().map(|v| text(v)), Some("float".to_string()));
    let cs: Vec<String> = infos[0].constraint_names.iter().map(|c| text(c)).collect();
    assert_eq!(cs, vec!["int", "str"]);
    assert_eq!(text(&infos[1].name), "Z");
    assert!(infos[1].default_typevar_name.is_none());
}

#[test]
fn typevar_literal_mismatch_kinds() {
    assert_eq!(literal_type_mismatch(&chars("'a'"), &chars(" INT ")), Some(LiteralMismatch::Str));
    assert_eq!(literal_type_mismatch(&chars("-3"), &chars("bytes")), Some(LiteralMismatch::Int));
    assert_eq!(literal_type_mismatch(&chars("--3"), &chars("str")), Some(LiteralMismatch::Int));
    assert_eq!(literal_type_mismatch(&chars("1.5e3"), &chars("bool")), Some(LiteralMismatch::Float));
    assert_eq!(literal_type_mismatch(&chars("1.5"), &chars("float")), None);
    assert_eq!(literal_type_mismatch(&chars("x"), &chars("int")), None);
    assert!(parses_as_float(&chars("-.5")));
    assert!(parses_as_float(&chars("5.")));
    assert!(!parses_as_float(&chars(".")));
    assert!(!parses_as_float(&chars("1.2.3")));
    assert!(!parses_as_float(&chars("1.5e")));
    assert_eq!(find_matching_bracket(&chars("a(b)c)d"), '(', ')'), Some(5));
    let resolved = resolve_generic_params(
        &vec![chars("T"), chars("U")],
        &vec![chars("int")],
        &parse_typevar_info_from_source(&chars("U = TypeVar(\"U\", default=T)"), &vec![chars("T"), chars("U")]),
    );
    let got: Vec<(String, String)> = resolved.iter().map(|(a, b)| (text(a), text(b))).collect();
    assert_eq!(got, vec![("T".to_string(), "int".to_string()), ("U".to_string(), "int".to_string())]);
}
