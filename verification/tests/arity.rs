use basilisk_checker::arity::{
    compute_arities, is_parameters_form, subscript_arg_texts, ArityIssue, ClassArityInfo,
    GenericParam, SubscriptSite, TooFewTypeArguments, TypeAliasDef, TypeArity, TypeVarDecl,
};
use basilisk_checker::position::Span;

fn chars(s: &str) -> Vec<char> {
    s.chars().collect()
}

fn tv(name: &str, has_default: bool, is_paramspec: bool) -> TypeVarDecl {
    TypeVarDecl { name: chars(name), has_default, is_paramspec, is_typevartuple: false }
}

fn generic(name: &str, params: &[&str]) -> ClassArityInfo {
    ClassArityInfo {
        name: chars(name),
        generic_params: params.iter().map(|p| GenericParam { name: chars(p), is_typevartuple: false }).collect(),
        base_expression_names: params.iter().map(|p| chars(p)).collect(),
        has_subscript_base: true,
        has_pep695_type_params: false,
    }
}

fn site(base: &str, count: usize, text: &str, at: u32) -> SubscriptSite {
    SubscriptSite { base_name: chars(base), arg_count: count, span: Span { start: at, end: at + text.len() as u32 }, text: Some(chars(text)) }
}

#[test]
fn arity_too_few_too_many_and_unsubscriptable() {
    let typevars = vec![tv("T", false, false), tv("T1", false, false), tv("T2", false, false), tv("DefaultStrT", true, false), tv("P", false, true)];
    let classes = vec![
        generic("AllTheDefaults", &["T1", "T2", "DefaultStrT"]),
        generic("LinkedList", &["T"]),
        ClassArityInfo {
            name: chars("Foo"),
            generic_params: vec![],
            base_expression_names: vec![chars("LinkedList"), chars("int")],
            has_subscript_base: true,
            has_pep695_type_params: false,
        },
        generic("ClassA", &["T", "P"]),
    ];
    let aliases = vec![TypeAliasDef { name: chars("MyAlias"), rhs_names: vec![chars("LinkedList"), chars("T2")] }];
    let sites = vec![
        site("AllTheDefaults", 1, "AllTheDefaults[int]", 0),
        site("AllTheDefaults", 2, "AllTheDefaults[int, str]", 30),
        site("LinkedList", 2, "LinkedList[int, str]", 60),
        site("MyAlias", 2, "MyAlias[int, str]", 90),
        site("Foo", 1, "Foo[str]", 120),
        site("type", 2, "type[int, str]", 140),
        site("ClassA", 2, "ClassA[int, int]", 160),
    ];
    let diags = TooFewTypeArguments.check(&sites, &classes, &aliases, &typevars);
    assert_eq!(diags.len(), 6);
    assert!(matches!(&diags[0].issue, ArityIssue::ParamSpecSlot { arg, param, .. } if *arg == chars("int") && *param == chars("P")));
    assert_eq!((diags[0].span.start, diags[0].span.end), (160, 176));
    assert!(matches!(&diags[1].issue, ArityIssue::TooFew { min: 2, count: 1, .. }));
    assert!(matches!(&diags[2].issue, ArityIssue::TooMany { max: 1, count: 2, .. }));
    assert!(matches!(&diags[3].issue, ArityIssue::TooMany { base, max: 1, count: 2 } if *base == chars("MyAlias")));
    assert!(matches!(&diags[4].issue, ArityIssue::TooMany { base, max: 0, count: 1 } if *base == chars("Foo")));
    assert!(matches!(&diags[5].issue, ArityIssue::Builtin { exact: 1, count: 2, .. }));
}

#[test]
fn arity_single_paramspec_is_unbounded() {
    let typevars = vec![tv("P", false, true)];
    let classes = vec![generic("ClassC", &["P"])];
    let ar = compute_arities(&classes, &Vec::new(), &typevars);
    assert_eq!(ar.len(), 1);
    assert_eq!(ar[0].1, TypeArity { min: None, max: None });
}

#[test]
fn arity_subscript_helpers() {
    let args = subscript_arg_texts(&chars(" ClassA[[int, str], Concatenate[int, P]] ")).unwrap();
    let got: Vec<String> = args.iter().map(|a| a.iter().collect()).collect();
    assert_eq!(got, vec!["[int, str]", "Concatenate[int, P]"]);
    assert!(subscript_arg_texts(&chars("ClassA")).is_none());
    let pss = vec![chars("P")];
    assert!(is_parameters_form(&chars("..."), &pss));
    assert!(is_parameters_form(&chars("P"), &pss));
    assert!(!is_parameters_form(&chars("int"), &pss));
}
